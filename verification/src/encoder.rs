//! The sending side: a byte string goes out packet by packet, with a look at
//! the cancellation flag before each one. These are the decisions only; the
//! caller makes the exchanges and keeps the pace between them.

use vstd::prelude::*;
use crate::checksum::{crc32, crc32_of};
use crate::frame::{encode, frame_of, MAX_PADDING, OVERHEAD};
use crate::packet::{chunk_at, chunk_count, Packet};

verus! {

/// How far a byte string has gone out.
pub struct Sending {
    /// The bytes to send.
    pub bytes: Seq<u8>,
    /// Packets handed out so far.
    pub packets: nat,
}

/// Bytes that have gone out once `packets` packets of a string of `len`
/// bytes were handed out.
pub open spec fn bytes_in(len: nat, packets: nat) -> nat {
    if 7 * packets <= len {
        7 * packets
    } else {
        len
    }
}

/// What to do next when sending.
#[derive(Debug, PartialEq, Eq)]
pub enum SendStep {
    /// Send this packet.
    Send(Packet),
    /// Cancellation was requested before all was sent: stop. This is a
    /// normal way for a transfer to end, not a failure.
    Cancelled { bytes_sent: usize },
    /// Everything has been sent.
    Finished { bytes_sent: usize },
}

/// Whether `step` is what follows from the state `at` and the flag.
pub open spec fn is_next_step(at: Sending, cancelled: bool, step: SendStep) -> bool {
    if at.packets == chunk_count(at.bytes.len()) {
        step == (SendStep::Finished { bytes_sent: at.bytes.len() as usize })
    } else if cancelled {
        step == (SendStep::Cancelled {
            bytes_sent: bytes_in(at.bytes.len(), at.packets) as usize,
        })
    } else {
        step matches SendStep::Send(packet) && packet@ == chunk_at(at.bytes, at.packets as int)
    }
}

/// The state after `step` was handed out in state `at`.
pub open spec fn after_step(at: Sending, cancelled: bool) -> Sending {
    if at.packets == chunk_count(at.bytes.len()) || cancelled {
        at
    } else {
        Sending { packets: at.packets + 1, ..at }
    }
}

/// The packet that starts at byte `sent` of `bytes`: the next seven bytes,
/// or what is left of them.
fn packet_from(bytes: &[u8], sent: usize) -> (packet: Packet)
    requires
        sent < bytes@.len(),
    ensures
        packet@ == bytes@.subrange(
            sent as int,
            if sent + 7 <= bytes@.len() {
                sent + 7
            } else {
                bytes@.len() as int
            },
        ),
{
    let len: usize = bytes.len();
    let end: usize = if len - sent > 7 {
        sent + 7
    } else {
        len
    };
    let piece: &[u8] = vstd::slice::slice_subrange(bytes, sent, end);
    Packet::new(piece).unwrap()
}

/// Hands out a byte string in packets of up to seven bytes.
#[derive(Debug)]
pub struct PacketSender {
    bytes: Vec<u8>,
    sent: usize,
}

impl View for PacketSender {
    type V = Sending;

    closed spec fn view(&self) -> Sending {
        Sending { bytes: self.bytes@, packets: chunk_count(self.sent as nat) }
    }
}

impl PacketSender {
    #[verifier::type_invariant]
    closed spec fn consistent(&self) -> bool {
        &&& self.sent <= self.bytes@.len()
        &&& self.sent % 7 == 0 || self.sent == self.bytes@.len()
    }

    /// A sender that has all of `bytes` before it.
    pub fn new(bytes: Vec<u8>) -> (sender: PacketSender)
        ensures
            sender@ == (Sending { bytes: bytes@, packets: 0 }),
    {
        PacketSender { bytes, sent: 0 }
    }

    /// Bytes handed out so far.
    pub fn bytes_sent(&self) -> (n: usize)
        ensures
            n == bytes_in(self@.bytes.len(), self@.packets),
            self@.packets <= chunk_count(self@.bytes.len()),
    {
        proof {
            use_type_invariant(self);
        }
        self.sent
    }

    /// Decides what comes next. Once everything is out the transfer is
    /// finished, whatever the flag says. Before that the flag is looked at
    /// before each packet: if it is set, nothing more goes out, and the
    /// count reported is what went out before. Otherwise the next packet is
    /// the next seven bytes, or what is left of them.
    pub fn next(&mut self, cancelled: bool) -> (step: SendStep)
        ensures
            is_next_step(old(self)@, cancelled, step),
            final(self)@ == after_step(old(self)@, cancelled),
            cancelled ==> !(step matches SendStep::Send(_)),
            cancelled && old(self)@.packets == 0 && old(self)@.bytes.len() > 0 ==> step == (
            SendStep::Cancelled { bytes_sent: 0 }),
    {
        proof {
            use_type_invariant(&*self);
        }
        let len: usize = self.bytes.len();
        if self.sent == len {
            return SendStep::Finished { bytes_sent: len };
        }
        if cancelled {
            return SendStep::Cancelled { bytes_sent: self.sent };
        }
        let packet: Packet = packet_from(self.bytes.as_slice(), self.sent);
        self.sent = self.sent + packet.len();
        SendStep::Send(packet)
    }
}

/// How far a frame has gone out.
pub struct Encoding {
    /// The payload that the frame carries.
    pub payload: Seq<u8>,
    /// Packets handed out so far.
    pub packets: nat,
}

/// What to do next when sending a frame.
#[derive(Debug, PartialEq, Eq)]
pub enum EncodeStep {
    /// Send this packet.
    Send(Packet),
    /// Cancellation was requested before the whole frame was sent: stop.
    Cancelled { bytes_sent: usize },
    /// The whole frame has been sent.
    Finished { bytes_sent: usize, checksum: u32 },
}

/// Whether `step` is what follows, for a frame's encoder, from the state
/// `at` and the flag.
pub open spec fn is_next_frame_step(at: Encoding, cancelled: bool, step: EncodeStep) -> bool {
    let frame = frame_of(at.payload);
    if at.packets == chunk_count(frame.len()) {
        step == (EncodeStep::Finished {
            bytes_sent: frame.len() as usize,
            checksum: crc32_of(at.payload),
        })
    } else if cancelled {
        step == (EncodeStep::Cancelled { bytes_sent: bytes_in(frame.len(), at.packets) as usize })
    } else {
        step matches EncodeStep::Send(packet) && packet@ == chunk_at(frame, at.packets as int)
    }
}

/// Sends a payload as a frame, packet by packet.
pub struct FrameEncoder {
    frame: Vec<u8>,
    sent: usize,
    checksum: u32,
    payload: Ghost<Seq<u8>>,
}

impl View for FrameEncoder {
    type V = Encoding;

    closed spec fn view(&self) -> Encoding {
        Encoding { payload: self.payload@, packets: chunk_count(self.sent as nat) }
    }
}

impl FrameEncoder {
    #[verifier::type_invariant]
    closed spec fn consistent(&self) -> bool {
        &&& self.frame@ == frame_of(self.payload@)
        &&& self.checksum == crc32_of(self.payload@)
        &&& self.sent <= self.frame@.len()
        &&& self.sent % 7 == 0 || self.sent == self.frame@.len()
    }

    /// An encoder that has the whole frame of `payload` before it.
    pub fn new(payload: &[u8]) -> (encoder: FrameEncoder)
        requires
            payload@.len() + OVERHEAD + MAX_PADDING <= usize::MAX,
        ensures
            encoder@ == (Encoding { payload: payload@, packets: 0 }),
    {
        let checksum: u32 = crc32(payload);
        let frame: Vec<u8> = encode(payload);
        FrameEncoder { frame, sent: 0, checksum, payload: Ghost(payload@) }
    }

    /// The check value of the payload.
    pub fn checksum(&self) -> (sum: u32)
        ensures
            sum == crc32_of(self@.payload),
    {
        proof {
            use_type_invariant(self);
        }
        self.checksum
    }

    /// Bytes of the frame handed out so far.
    pub fn bytes_sent(&self) -> (n: usize)
        ensures
            n == bytes_in(frame_of(self@.payload).len(), self@.packets),
    {
        proof {
            use_type_invariant(self);
        }
        self.sent
    }

    /// Decides what comes next. The flag is looked at before each packet: if
    /// it is set while part of the frame is still to go, nothing more goes
    /// out, and the count reported is what went out before; set before the
    /// first packet, that is nothing. Once the whole frame is out, the
    /// transfer is finished and reports the frame's length and the
    /// payload's check value.
    pub fn next(&mut self, cancelled: bool) -> (step: EncodeStep)
        ensures
            is_next_frame_step(old(self)@, cancelled, step),
            final(self)@.payload == old(self)@.payload,
            final(self)@.packets == if cancelled || old(self)@.packets == chunk_count(
                frame_of(old(self)@.payload).len(),
            ) {
                old(self)@.packets
            } else {
                old(self)@.packets + 1
            },
            cancelled ==> !(step matches EncodeStep::Send(_)),
            cancelled && old(self)@.packets == 0 ==> step == (EncodeStep::Cancelled {
                bytes_sent: 0,
            }),
    {
        proof {
            use_type_invariant(&*self);
        }
        let len: usize = self.frame.len();
        if self.sent == len {
            return EncodeStep::Finished { bytes_sent: len, checksum: self.checksum };
        }
        if cancelled {
            return EncodeStep::Cancelled { bytes_sent: self.sent };
        }
        let packet: Packet = packet_from(self.frame.as_slice(), self.sent);
        self.sent = self.sent + packet.len();
        EncodeStep::Send(packet)
    }
}

} // verus!
