//! The decoder: a state machine that takes packet payloads one at a time and
//! rebuilds the payload and the checksum of the frame they carry.
//!
//! The decoder reads the bytes as one stream. It skips everything up to the
//! first start marker, takes what follows as body up to the first end
//! marker, takes what follows that as checksum up to the first closing
//! marker, and ignores the rest. Where in a packet a marker lands makes no
//! difference. A body byte that has the end marker's value, or a checksum
//! byte that has the closing marker's value, is taken for the marker: the
//! format does not escape them, and the decoder does not try to recover.

use vstd::prelude::*;
use crate::checksum::{crc32_of, le_bytes_of, lemma_le_round_trip, verdict_of, verify_checksum, Verdict};
use crate::frame::{
    declared_len, frame_of, header_byte, padding_len, raw_high, raw_low, zeros, CHECKSUM_END, END,
    START,
};
use crate::packet::{append_range, chunks, joined, lemma_chunks_join, payloads, Packet};

verus! {

/// Where the decoder stands in a frame.
#[derive(Clone, Copy, Debug, PartialEq, Eq, Structural)]
pub enum Phase {
    /// No start marker seen yet.
    AwaitStart,
    /// Past the start marker: bytes are body.
    CollectBody,
    /// Past the end marker: bytes are checksum.
    CollectChecksum,
    /// Past the closing marker: the frame is complete.
    Done,
}

/// What a decoder has made of the bytes it was given.
pub struct Progress {
    pub phase: Phase,
    pub body: Seq<u8>,
    pub checksum: Seq<u8>,
}

/// A decoder that has seen nothing.
pub open spec fn fresh() -> Progress {
    Progress { phase: Phase::AwaitStart, body: Seq::empty(), checksum: Seq::empty() }
}

/// The decoder after one more byte.
pub open spec fn after_byte(p: Progress, byte: u8) -> Progress {
    match p.phase {
        Phase::AwaitStart => if byte == START {
            Progress { phase: Phase::CollectBody, ..p }
        } else {
            p
        },
        Phase::CollectBody => if byte == END {
            Progress { phase: Phase::CollectChecksum, ..p }
        } else {
            Progress { body: p.body.push(byte), ..p }
        },
        Phase::CollectChecksum => if byte == CHECKSUM_END {
            Progress { phase: Phase::Done, ..p }
        } else {
            Progress { checksum: p.checksum.push(byte), ..p }
        },
        Phase::Done => p,
    }
}

/// The decoder after a run of bytes.
pub open spec fn after_bytes(p: Progress, bytes: Seq<u8>) -> Progress
    decreases bytes.len(),
{
    if bytes.len() == 0 {
        p
    } else {
        after_byte(after_bytes(p, bytes.drop_last()), bytes.last())
    }
}

/// The decoder after a run of packet payloads, taken in order.
pub open spec fn after_packets(p: Progress, packets: Seq<Seq<u8>>) -> Progress
    decreases packets.len(),
{
    if packets.len() == 0 {
        p
    } else {
        after_bytes(after_packets(p, packets.drop_last()), packets.last())
    }
}

/// Index of the first `marker` in `bytes`, or the length of `bytes` where
/// there is none.
pub open spec fn first_at(bytes: Seq<u8>, marker: u8) -> int
    decreases bytes.len(),
{
    if bytes.len() == 0 {
        0
    } else if bytes[0] == marker {
        0
    } else {
        1 + first_at(bytes.drop_first(), marker)
    }
}

/// `first_at` is the least index that holds the marker.
pub proof fn lemma_first_at(bytes: Seq<u8>, marker: u8)
    ensures
        0 <= first_at(bytes, marker) <= bytes.len(),
        first_at(bytes, marker) < bytes.len() ==> bytes[first_at(bytes, marker)] == marker,
        forall|j: int| 0 <= j < first_at(bytes, marker) ==> bytes[j] != marker,
        first_at(bytes, marker) == bytes.len() <==> !bytes.contains(marker),
    decreases bytes.len(),
{
    if bytes.len() > 0 && bytes[0] != marker {
        let rest = bytes.drop_first();
        lemma_first_at(rest, marker);
        assert forall|j: int| 0 <= j < first_at(bytes, marker) implies bytes[j] != marker by {
            if j > 0 {
                assert(bytes[j] == rest[j - 1]);
            }
        }
        if first_at(bytes, marker) < bytes.len() {
            assert(bytes[first_at(bytes, marker)] == rest[first_at(rest, marker)]);
        }
    }
}

/// Feeding two runs of bytes one after the other is feeding them as one
/// run: where the bytes are cut makes no difference to the decoder.
pub proof fn lemma_after_bytes_concat(p: Progress, a: Seq<u8>, b: Seq<u8>)
    ensures
        after_bytes(p, a + b) == after_bytes(after_bytes(p, a), b),
    decreases b.len(),
{
    if b.len() == 0 {
        assert(a + b =~= a);
    } else {
        lemma_after_bytes_concat(p, a, b.drop_last());
        assert((a + b).drop_last() =~= a + b.drop_last());
        assert((a + b).last() == b.last());
    }
}

/// A run of packets decodes as the one run of bytes that their payloads
/// make up. So a marker decodes the same whether it closes one packet,
/// opens the next, or stands in the middle of one.
pub proof fn lemma_packets_as_stream(p: Progress, packets: Seq<Seq<u8>>)
    ensures
        after_packets(p, packets) == after_bytes(p, joined(packets)),
    decreases packets.len(),
{
    if packets.len() > 0 {
        lemma_packets_as_stream(p, packets.drop_last());
        lemma_after_bytes_concat(p, joined(packets.drop_last()), packets.last());
    }
}

/// One byte fed as a run of its own.
pub proof fn lemma_after_one(p: Progress, byte: u8)
    ensures
        after_bytes(p, seq![byte]) == after_byte(p, byte),
{
    let one = seq![byte];
    assert(one.drop_last() =~= Seq::<u8>::empty());
    assert(one.last() == byte);
    assert(after_bytes(p, one.drop_last()) == p);
}

/// Bytes without the marker that the decoder waits for do not change its
/// phase: before the start marker they are dropped, in the body they are
/// body, in the checksum they are checksum, and after the frame they are
/// dropped again.
pub proof fn lemma_after_plain(p: Progress, bytes: Seq<u8>)
    requires
        p.phase == Phase::AwaitStart ==> !bytes.contains(START),
        p.phase == Phase::CollectBody ==> !bytes.contains(END),
        p.phase == Phase::CollectChecksum ==> !bytes.contains(CHECKSUM_END),
    ensures
        after_bytes(p, bytes) == match p.phase {
            Phase::AwaitStart => p,
            Phase::CollectBody => Progress { body: p.body + bytes, ..p },
            Phase::CollectChecksum => Progress { checksum: p.checksum + bytes, ..p },
            Phase::Done => p,
        },
    decreases bytes.len(),
{
    if bytes.len() == 0 {
        assert(p.body + bytes =~= p.body);
        assert(p.checksum + bytes =~= p.checksum);
    } else {
        let front = bytes.drop_last();
        assert forall|b: u8| front.contains(b) implies bytes.contains(b) by {
            let i = choose|i: int| 0 <= i < front.len() && front[i] == b;
            assert(bytes[i] == b);
        }
        assert(bytes.contains(bytes.last())) by {
            assert(bytes[bytes.len() - 1] == bytes.last());
        }
        lemma_after_plain(p, front);
        assert(p.body + bytes =~= (p.body + front).push(bytes.last()));
        assert(p.checksum + bytes =~= (p.checksum + front).push(bytes.last()));
    }
}

/// A run of bytes that holds the marker the decoder waits for: the bytes
/// before the first one are taken as the phase has it, the marker moves
/// the decoder on, and the bytes after it are fed to the next phase.
pub proof fn lemma_after_marked(p: Progress, bytes: Seq<u8>, marker: u8)
    requires
        p.phase != Phase::Done,
        marker == match p.phase {
            Phase::AwaitStart => START,
            Phase::CollectBody => END,
            _ => CHECKSUM_END,
        },
        bytes.contains(marker),
    ensures
        ({
            let i = first_at(bytes, marker);
            let before = bytes.subrange(0, i);
            let after = bytes.subrange(i + 1, bytes.len() as int);
            after_bytes(p, bytes) == after_bytes(
                match p.phase {
                    Phase::AwaitStart => Progress { phase: Phase::CollectBody, ..p },
                    Phase::CollectBody => Progress {
                        phase: Phase::CollectChecksum,
                        body: p.body + before,
                        ..p
                    },
                    _ => Progress { phase: Phase::Done, checksum: p.checksum + before, ..p },
                },
                after,
            )
        }),
{
    lemma_first_at(bytes, marker);
    let i = first_at(bytes, marker);
    let before = bytes.subrange(0, i);
    let after = bytes.subrange(i + 1, bytes.len() as int);
    assert(bytes =~= (before + seq![marker]) + after);
    lemma_after_bytes_concat(p, before + seq![marker], after);
    lemma_after_bytes_concat(p, before, seq![marker]);
    assert(!before.contains(marker));
    lemma_after_plain(p, before);
    lemma_after_one(after_bytes(p, before), marker);
}

/// A marker decodes the same wherever the packets are cut around it: as the
/// last byte of one packet, as the first byte of the next, or in the middle
/// of a single packet.
pub proof fn lemma_marker_at_boundary(p: Progress, before: Seq<u8>, marker: u8, after: Seq<u8>)
    ensures
        after_packets(p, seq![before.push(marker), after]) == after_bytes(
            p,
            before.push(marker) + after,
        ),
        after_packets(p, seq![before, seq![marker] + after]) == after_bytes(
            p,
            before.push(marker) + after,
        ),
        after_packets(p, seq![before.push(marker) + after]) == after_bytes(
            p,
            before.push(marker) + after,
        ),
{
    let whole = before.push(marker) + after;
    let closes = seq![before.push(marker), after];
    let opens = seq![before, seq![marker] + after];
    let inside = seq![whole];
    lemma_packets_as_stream(p, closes);
    lemma_packets_as_stream(p, opens);
    lemma_packets_as_stream(p, inside);
    lemma_joined_pair(before.push(marker), after);
    lemma_joined_pair(before, seq![marker] + after);
    assert(inside.drop_last() =~= Seq::<Seq<u8>>::empty());
    assert(joined(inside.drop_last()) =~= Seq::<u8>::empty());
    assert(joined(inside) =~= whole);
    assert(before + (seq![marker] + after) =~= whole);
}

/// Two pieces laid end to end.
proof fn lemma_joined_pair(a: Seq<u8>, b: Seq<u8>)
    ensures
        joined(seq![a, b]) == a + b,
{
    let pair = seq![a, b];
    let single = pair.drop_last();
    assert(single =~= seq![a]);
    assert(single.drop_last() =~= Seq::<Seq<u8>>::empty());
    assert(joined(single.drop_last()) =~= Seq::<u8>::empty());
    assert(joined(single) =~= a);
    assert(pair.last() == b);
}

/// What the decoder makes of a well-laid-out stream: anything without a
/// start marker, the start marker, a body without an end marker, the end
/// marker, a checksum without a closing marker, the closing marker, and
/// anything at all after that. It ends past the frame, with that body and
/// that checksum.
pub proof fn lemma_decodes_layout(
    lead: Seq<u8>,
    body: Seq<u8>,
    checksum: Seq<u8>,
    tail: Seq<u8>,
)
    requires
        !lead.contains(START),
        !body.contains(END),
        !checksum.contains(CHECKSUM_END),
    ensures
        after_bytes(
            fresh(),
            lead + seq![START] + body + seq![END] + checksum + seq![CHECKSUM_END] + tail,
        ) == (Progress { phase: Phase::Done, body, checksum }),
{
    let s1 = lead;
    let s2 = s1 + seq![START];
    let s3 = s2 + body;
    let s4 = s3 + seq![END];
    let s5 = s4 + checksum;
    let s6 = s5 + seq![CHECKSUM_END];
    let p0 = fresh();
    lemma_after_plain(p0, lead);
    lemma_after_bytes_concat(p0, s1, seq![START]);
    lemma_after_one(p0, START);
    let p2 = Progress { phase: Phase::CollectBody, ..p0 };
    lemma_after_bytes_concat(p0, s2, body);
    lemma_after_plain(p2, body);
    let p3 = Progress { body: p2.body + body, ..p2 };
    assert(p3.body =~= body);
    lemma_after_bytes_concat(p0, s3, seq![END]);
    lemma_after_one(p3, END);
    let p4 = Progress { phase: Phase::CollectChecksum, ..p3 };
    lemma_after_bytes_concat(p0, s4, checksum);
    lemma_after_plain(p4, checksum);
    let p5 = Progress { checksum: p4.checksum + checksum, ..p4 };
    assert(p5.checksum =~= checksum);
    lemma_after_bytes_concat(p0, s5, seq![CHECKSUM_END]);
    lemma_after_one(p5, CHECKSUM_END);
    let p6 = Progress { phase: Phase::Done, ..p5 };
    lemma_after_bytes_concat(p0, s6, tail);
    lemma_after_plain(p6, tail);
}

/// A frame, cut into packets and decoded, gives back its payload and a
/// checksum that matches it. This holds of every payload that the format
/// can carry unambiguously: one without a byte of the end marker's value,
/// whose checksum has no byte of the closing marker's value. (Start and
/// closing marker values in the payload do no harm, nor do start and end
/// marker values in the checksum.)
pub proof fn lemma_round_trip(payload: Seq<u8>)
    requires
        !payload.contains(END),
        !le_bytes_of(crc32_of(payload)).contains(CHECKSUM_END),
    ensures
        ({
            let received = after_packets(fresh(), chunks(frame_of(payload)));
            &&& is_whole(received)
            &&& received.body == payload
            &&& received.checksum == le_bytes_of(crc32_of(payload))
            &&& verdict_of(received.body, received.checksum) == Verdict::Match
        }),
{
    let frame = frame_of(payload);
    let total = declared_len(payload);
    let head = seq![header_byte(raw_high(total)), header_byte(raw_low(total))];
    let sum = le_bytes_of(crc32_of(payload));
    let padding = zeros(padding_len(total));
    lemma_packets_as_stream(fresh(), chunks(frame));
    lemma_chunks_join(frame);
    lemma_le_round_trip(crc32_of(payload));
    assert(!head.contains(START)) by {
        if head.contains(START) {
            let i = choose|i: int| 0 <= i < head.len() && head[i] == START;
            assert(head[0] != START && head[1] != START);
        }
    }
    lemma_decodes_layout(head, payload, sum, padding);
    assert(frame =~= head + seq![START] + payload + seq![END] + sum + seq![CHECKSUM_END]
        + padding);
}

/// A decoder that started fresh has collected nothing before the start
/// marker, and no checksum before the end marker.
pub proof fn lemma_phases_in_order(bytes: Seq<u8>)
    ensures
        after_bytes(fresh(), bytes).phase == Phase::AwaitStart ==> after_bytes(
            fresh(),
            bytes,
        ).body.len() == 0,
        after_bytes(fresh(), bytes).phase == Phase::AwaitStart || after_bytes(
            fresh(),
            bytes,
        ).phase == Phase::CollectBody ==> after_bytes(fresh(), bytes).checksum.len() == 0,
    decreases bytes.len(),
{
    if bytes.len() > 0 {
        lemma_phases_in_order(bytes.drop_last());
    }
}

/// The decoder itself.
#[derive(Debug)]
pub struct FrameDecoder {
    phase: Phase,
    body: Vec<u8>,
    checksum: Vec<u8>,
}

impl View for FrameDecoder {
    type V = Progress;

    closed spec fn view(&self) -> Progress {
        Progress { phase: self.phase, body: self.body@, checksum: self.checksum@ }
    }
}

/// A frame as it was received.
#[derive(Debug, PartialEq, Eq)]
pub struct Decoded {
    /// The payload.
    pub body: Vec<u8>,
    /// The checksum bytes, in the order in which they arrived.
    pub checksum: [u8; 4],
}

/// Why no frame came out of a packet stream.
#[derive(Clone, Copy, Debug, PartialEq, Eq, Structural)]
pub enum DecodeError {
    /// The packets ended before the frame did: a marker is missing, or the
    /// closing marker did not come after exactly four checksum bytes.
    MalformedFrame,
}

/// What to do before the next exchange.
#[derive(Clone, Copy, Debug, PartialEq, Eq, Structural)]
pub enum ReceiveStep {
    /// The frame is incomplete: read another packet and feed it.
    Read,
    /// Cancellation was requested: stop. What had been collected is gone.
    Cancelled,
    /// The frame is complete: nothing more to read.
    Complete,
}

/// Whether a decoder that stands at `p` holds a whole frame.
pub open spec fn is_whole(p: Progress) -> bool {
    p.phase == Phase::Done && p.checksum.len() == 4
}

/// Index of the first `marker` in `bytes`.
pub fn find_marker(bytes: &[u8], marker: u8) -> (found: Option<usize>)
    ensures
        found.is_some() <==> bytes@.contains(marker),
        found.is_some() ==> found.unwrap() == first_at(bytes@, marker),
        found.is_some() ==> (found.unwrap() as int) < bytes@.len(),
{
    let mut at: usize = 0;
    while at < bytes.len()
        invariant
            at <= bytes@.len(),
            forall|j: int| 0 <= j < at ==> bytes@[j] != marker,
        decreases bytes@.len() - at,
    {
        if bytes[at] == marker {
            proof {
                lemma_first_at(bytes@, marker);
            }
            return Some(at);
        }
        at = at + 1;
    }
    None
}

/// Cuts a payload at the start marker: what follows the first one, the
/// marker itself left out; what precedes it belongs to no frame and is
/// dropped. `None` where the payload holds no start marker.
pub fn cut_at_start(payload: &[u8]) -> (rest: Option<&[u8]>)
    ensures
        rest.is_some() <==> payload@.contains(START),
        rest.is_some() ==> rest.unwrap()@ == payload@.subrange(
            first_at(payload@, START) + 1,
            payload@.len() as int,
        ),
{
    let len: usize = payload.len();
    match find_marker(payload, START) {
        None => None,
        Some(i) => Some(vstd::slice::slice_subrange(payload, i + 1, len)),
    }
}

/// Cuts a payload at the end marker: what precedes the first one, which is
/// body, and what follows it, which is checksum; the marker itself is in
/// neither. `None` where the payload holds no end marker.
pub fn cut_at_end(payload: &[u8]) -> (parts: Option<(&[u8], &[u8])>)
    ensures
        parts.is_some() <==> payload@.contains(END),
        parts.is_some() ==> parts.unwrap().0@ == payload@.subrange(0, first_at(payload@, END))
            && parts.unwrap().1@ == payload@.subrange(
            first_at(payload@, END) + 1,
            payload@.len() as int,
        ),
{
    let len: usize = payload.len();
    match find_marker(payload, END) {
        None => None,
        Some(i) => Some(
            (
                vstd::slice::slice_subrange(payload, 0, i),
                vstd::slice::slice_subrange(payload, i + 1, len),
            ),
        ),
    }
}

/// Cuts a payload at the closing marker: what precedes the first one, which
/// completes the checksum; the marker itself is left out, and what follows
/// it belongs to no frame and is dropped. `None` where the payload holds no
/// closing marker.
pub fn cut_at_checksum_end(payload: &[u8]) -> (before: Option<&[u8]>)
    ensures
        before.is_some() <==> payload@.contains(CHECKSUM_END),
        before.is_some() ==> before.unwrap()@ == payload@.subrange(
            0,
            first_at(payload@, CHECKSUM_END),
        ),
{
    match find_marker(payload, CHECKSUM_END) {
        None => None,
        Some(i) => Some(vstd::slice::slice_subrange(payload, 0, i)),
    }
}

impl FrameDecoder {
    /// A decoder that has seen nothing.
    pub fn new() -> (decoder: FrameDecoder)
        ensures
            decoder@ == fresh(),
    {
        FrameDecoder { phase: Phase::AwaitStart, body: Vec::new(), checksum: Vec::new() }
    }

    /// Where the decoder stands.
    pub fn phase(&self) -> (phase: Phase)
        ensures
            phase == self@.phase,
    {
        self.phase
    }

    /// The body collected so far.
    pub fn body(&self) -> (bytes: &[u8])
        ensures
            bytes@ == self@.body,
    {
        self.body.as_slice()
    }

    /// The checksum bytes collected so far.
    pub fn checksum(&self) -> (bytes: &[u8])
        ensures
            bytes@ == self@.checksum,
    {
        self.checksum.as_slice()
    }

    /// Decides what comes before the next exchange. A complete frame needs
    /// no more packets. Otherwise cancellation is honoured before anything
    /// is read: the decoder forgets what it had collected and stands as new.
    pub fn poll(&mut self, cancelled: bool) -> (step: ReceiveStep)
        ensures
            step == if old(self)@.phase == Phase::Done {
                ReceiveStep::Complete
            } else if cancelled {
                ReceiveStep::Cancelled
            } else {
                ReceiveStep::Read
            },
            final(self)@ == if step == ReceiveStep::Cancelled {
                fresh()
            } else {
                old(self)@
            },
    {
        match self.phase {
            Phase::Done => ReceiveStep::Complete,
            _ => {
                if cancelled {
                    self.phase = Phase::AwaitStart;
                    self.body = Vec::new();
                    self.checksum = Vec::new();
                    ReceiveStep::Cancelled
                } else {
                    ReceiveStep::Read
                }
            },
        }
    }

    /// Takes in the payload of one packet.
    pub fn feed(&mut self, payload: &[u8])
        ensures
            final(self)@ == after_bytes(old(self)@, payload@),
    {
        let ghost at_entry = self@;
        let mut rest: &[u8] = payload;
        if self.phase == Phase::AwaitStart {
            match cut_at_start(rest) {
                None => {
                    proof {
                        lemma_after_plain(at_entry, payload@);
                    }
                    return ;
                },
                Some(after) => {
                    proof {
                        lemma_after_marked(at_entry, payload@, START);
                    }
                    self.phase = Phase::CollectBody;
                    rest = after;
                },
            }
        }
        assert(after_bytes(at_entry, payload@) == after_bytes(self@, rest@)) by {
            if at_entry.phase != Phase::AwaitStart {
                assert(rest@ == payload@);
            }
        }
        let ghost at_body = self@;
        let ghost body_input = rest@;
        if self.phase == Phase::CollectBody {
            match cut_at_end(rest) {
                None => {
                    proof {
                        lemma_after_plain(at_body, body_input);
                    }
                    append_range(&mut self.body, rest, 0, rest.len());
                    proof {
                        assert(rest@.subrange(0, rest@.len() as int) =~= rest@);
                    }
                    return ;
                },
                Some((before, after)) => {
                    proof {
                        lemma_after_marked(at_body, body_input, END);
                    }
                    append_range(&mut self.body, before, 0, before.len());
                    proof {
                        assert(before@.subrange(0, before@.len() as int) =~= before@);
                    }
                    self.phase = Phase::CollectChecksum;
                    rest = after;
                },
            }
        }
        assert(after_bytes(at_entry, payload@) == after_bytes(self@, rest@));
        let ghost at_sum = self@;
        let ghost sum_input = rest@;
        if self.phase == Phase::CollectChecksum {
            match cut_at_checksum_end(rest) {
                None => {
                    proof {
                        lemma_after_plain(at_sum, sum_input);
                    }
                    append_range(&mut self.checksum, rest, 0, rest.len());
                    proof {
                        assert(rest@.subrange(0, rest@.len() as int) =~= rest@);
                    }
                },
                Some(before) => {
                    proof {
                        lemma_after_marked(at_sum, sum_input, CHECKSUM_END);
                        let i = first_at(sum_input, CHECKSUM_END);
                        lemma_first_at(sum_input, CHECKSUM_END);
                        lemma_after_plain(
                            Progress {
                                phase: Phase::Done,
                                checksum: at_sum.checksum + before@,
                                ..at_sum
                            },
                            sum_input.subrange(i + 1, sum_input.len() as int),
                        );
                    }
                    append_range(&mut self.checksum, before, 0, before.len());
                    proof {
                        assert(before@.subrange(0, before@.len() as int) =~= before@);
                    }
                    self.phase = Phase::Done;
                },
            }
        } else {
            proof {
                lemma_after_plain(at_sum, sum_input);
            }
        }
    }

    /// Hands out the frame, if the decoder holds a whole one: it has passed
    /// the closing marker, and four checksum bytes came before it.
    pub fn finish(self) -> (outcome: Result<Decoded, DecodeError>)
        ensures
            outcome.is_ok() <==> is_whole(self@),
            outcome.is_ok() ==> outcome.unwrap().body@ == self@.body && outcome.unwrap().checksum@
                == self@.checksum,
            outcome.is_err() ==> outcome == Err::<Decoded, DecodeError>(DecodeError::MalformedFrame),
    {
        match self.phase {
            Phase::Done => {
                if self.checksum.len() == 4 {
                    let checksum: [u8; 4] = [
                        self.checksum[0],
                        self.checksum[1],
                        self.checksum[2],
                        self.checksum[3],
                    ];
                    proof {
                        assert(checksum@ =~= self.checksum@);
                    }
                    Ok(Decoded { body: self.body, checksum })
                } else {
                    Err(DecodeError::MalformedFrame)
                }
            },
            _ => Err(DecodeError::MalformedFrame),
        }
    }
}

impl Decoded {
    /// Compares the checksum that arrived with the check value of the body
    /// that arrived.
    pub fn verify(&self) -> (verdict: Verdict)
        ensures
            verdict == verdict_of(self.body@, self.checksum@),
    {
        verify_checksum(self.body.as_slice(), &self.checksum)
    }
}

/// Decodes a run of packets that has ended. The frame comes out if the
/// packets held a whole one; if they ended before that, the frame is
/// malformed.
pub fn decode(packets: &[Packet]) -> (outcome: Result<Decoded, DecodeError>)
    ensures
        outcome.is_ok() <==> is_whole(after_packets(fresh(), payloads(packets@))),
        outcome.is_ok() ==> outcome.unwrap().body@ == after_packets(
            fresh(),
            payloads(packets@),
        ).body && outcome.unwrap().checksum@ == after_packets(
            fresh(),
            payloads(packets@),
        ).checksum,
        outcome.is_err() ==> outcome == Err::<Decoded, DecodeError>(DecodeError::MalformedFrame),
{
    let mut decoder = FrameDecoder::new();
    let mut at: usize = 0;
    while at < packets.len()
        invariant
            at <= packets@.len(),
            decoder@ == after_packets(fresh(), payloads(packets@).take(at as int)),
        decreases packets@.len() - at,
    {
        proof {
            let upto = payloads(packets@).take(at as int + 1);
            assert(upto.drop_last() =~= payloads(packets@).take(at as int));
            assert(upto.last() == packets@[at as int]@);
        }
        decoder.feed(packets[at].payload());
        at = at + 1;
    }
    proof {
        assert(payloads(packets@).take(at as int) =~= payloads(packets@));
    }
    decoder.finish()
}

} // verus!
