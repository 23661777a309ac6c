//! Packets: the eight-byte unit that the link carries, and the cutting of a
//! byte string into packets and back.

use vstd::prelude::*;

verus! {

/// Number of bytes in one exchange with the link.
pub const PACKET_SIZE: u16 = 8;

/// Most payload bytes that one packet carries: one byte of the eight is the
/// count.
pub const MAX_PAYLOAD: usize = 7;

/// The payload of one packet: at most seven bytes.
#[derive(Debug, PartialEq, Eq)]
pub struct Packet {
    payload: Vec<u8>,
}

impl View for Packet {
    type V = Seq<u8>;

    closed spec fn view(&self) -> Seq<u8> {
        self.payload@
    }
}

/// The payload that eight bytes off the wire declare: as many of the bytes
/// after the first as the first one says.
pub open spec fn wire_payload(raw: Seq<u8>) -> Seq<u8>
    recommends
        raw.len() == 8,
        raw[0] <= 7,
{
    raw.subrange(1, 1 + raw[0] as int)
}

/// What goes on the wire for a payload: its length, then its bytes.
pub open spec fn wire_form(payload: Seq<u8>) -> Seq<u8>
    recommends
        payload.len() <= 7,
{
    seq![payload.len() as u8] + payload
}

/// Appends `src[from..to]` to `dst`.
pub(crate) fn append_range(dst: &mut Vec<u8>, src: &[u8], from: usize, to: usize)
    requires
        from <= to <= src@.len(),
    ensures
        final(dst)@ == old(dst)@ + src@.subrange(from as int, to as int),
{
    let mut at: usize = from;
    while at < to
        invariant
            from <= at <= to <= src@.len(),
            dst@ == old(dst)@ + src@.subrange(from as int, at as int),
        decreases to - at,
    {
        dst.push(src[at]);
        proof {
            assert(src@.subrange(from as int, at as int + 1) =~= src@.subrange(
                from as int,
                at as int,
            ).push(src@[at as int]));
        }
        at = at + 1;
    }
}

impl Packet {
    /// Every packet holds at most seven bytes.
    #[verifier::type_invariant]
    closed spec fn within_capacity(&self) -> bool {
        self.payload@.len() <= 7
    }

    /// A packet with the given payload, if it fits.
    pub fn new(payload: &[u8]) -> (packet: Option<Packet>)
        ensures
            packet.is_some() <==> payload@.len() <= 7,
            packet.is_some() ==> packet.unwrap()@ == payload@,
    {
        if payload.len() > MAX_PAYLOAD {
            return None;
        }
        let mut held: Vec<u8> = Vec::new();
        append_range(&mut held, payload, 0, payload.len());
        proof {
            assert(payload@.subrange(0, payload@.len() as int) =~= payload@);
            assert(held@ =~= payload@);
        }
        Some(Packet { payload: held })
    }

    /// Reads a packet out of the eight bytes of one exchange. The first byte
    /// is the count; a count above seven declares more than the exchange
    /// holds, and no packet comes of it.
    pub fn from_wire(raw: &[u8; 8]) -> (packet: Option<Packet>)
        ensures
            packet.is_some() <==> raw@[0] <= 7,
            packet.is_some() ==> packet.unwrap()@ == wire_payload(raw@),
    {
        let count: usize = raw[0] as usize;
        if count > MAX_PAYLOAD {
            return None;
        }
        let mut held: Vec<u8> = Vec::new();
        append_range(&mut held, raw.as_slice(), 1, 1 + count);
        proof {
            assert(held@ =~= wire_payload(raw@));
        }
        Some(Packet { payload: held })
    }

    /// Number of payload bytes.
    pub fn len(&self) -> (n: usize)
        ensures
            n == self@.len(),
            n <= 7,
    {
        proof {
            use_type_invariant(self);
        }
        self.payload.len()
    }

    /// The payload bytes.
    pub fn payload(&self) -> (bytes: &[u8])
        ensures
            bytes@ == self@,
            bytes@.len() <= 7,
    {
        proof {
            use_type_invariant(self);
        }
        self.payload.as_slice()
    }

    /// The bytes to put on the wire for this packet: the count, then the
    /// payload.
    pub fn to_wire(&self) -> (wire: Vec<u8>)
        ensures
            wire@ == wire_form(self@),
            wire@.len() == self@.len() + 1,
            wire@.len() <= 8,
    {
        proof {
            use_type_invariant(self);
        }
        let mut wire: Vec<u8> = Vec::new();
        wire.push(self.payload.len() as u8);
        append_range(&mut wire, self.payload.as_slice(), 0, self.payload.len());
        proof {
            assert(self.payload@.subrange(0, self.payload@.len() as int) =~= self.payload@);
            assert(wire@ =~= wire_form(self@));
        }
        wire
    }
}

/// How many packets it takes to carry `len` bytes.
pub open spec fn chunk_count(len: nat) -> nat {
    (len + 6) / 7
}

/// The `k`-th run of up to seven bytes of `bytes`.
pub open spec fn chunk_at(bytes: Seq<u8>, k: int) -> Seq<u8>
    recommends
        0 <= k < chunk_count(bytes.len()),
{
    bytes.subrange(7 * k, if 7 * k + 7 <= bytes.len() { 7 * k + 7 } else { bytes.len() as int })
}

/// `bytes` cut into runs of seven, the last one shorter where the length is
/// no multiple of seven.
pub open spec fn chunks(bytes: Seq<u8>) -> Seq<Seq<u8>> {
    Seq::new(chunk_count(bytes.len()), |k: int| chunk_at(bytes, k))
}

/// The payloads of a run of packets.
pub open spec fn payloads(packets: Seq<Packet>) -> Seq<Seq<u8>> {
    Seq::new(packets.len(), |k: int| packets[k]@)
}

/// The pieces laid end to end.
pub open spec fn joined(pieces: Seq<Seq<u8>>) -> Seq<u8>
    decreases pieces.len(),
{
    if pieces.len() == 0 {
        Seq::empty()
    } else {
        joined(pieces.drop_last()) + pieces.last()
    }
}

/// The first `k` chunks of a byte string, laid end to end, are its first
/// `7 * k` bytes (or all of it, where it has fewer).
pub proof fn lemma_chunks_prefix(bytes: Seq<u8>, k: nat)
    requires
        k <= chunk_count(bytes.len()),
    ensures
        joined(chunks(bytes).take(k as int)) == bytes.take(
            if 7 * k <= bytes.len() {
                7 * k as int
            } else {
                bytes.len() as int
            },
        ),
    decreases k,
{
    let pieces = chunks(bytes).take(k as int);
    if k == 0 {
        assert(joined(pieces) =~= bytes.take(0));
    } else {
        lemma_chunks_prefix(bytes, (k - 1) as nat);
        assert(pieces.drop_last() =~= chunks(bytes).take(k - 1));
        assert(pieces.last() == chunk_at(bytes, k - 1));
        let end = if 7 * k <= bytes.len() { 7 * k as int } else { bytes.len() as int };
        assert(bytes.take(7 * (k - 1)) + chunk_at(bytes, k - 1) =~= bytes.take(end));
    }
}

/// Cutting a byte string into packets and laying the payloads end to end
/// again gives the byte string back, whatever its length.
pub proof fn lemma_chunks_join(bytes: Seq<u8>)
    ensures
        joined(chunks(bytes)) == bytes,
{
    let n = chunk_count(bytes.len());
    lemma_chunks_prefix(bytes, n);
    assert(chunks(bytes).take(n as int) =~= chunks(bytes));
    assert(bytes.take(bytes.len() as int) =~= bytes);
}

/// Cuts `bytes` into packets of seven bytes, the last one shorter where the
/// length is no multiple of seven.
pub fn packetize(bytes: &[u8]) -> (packets: Vec<Packet>)
    ensures
        payloads(packets@) == chunks(bytes@),
        joined(payloads(packets@)) == bytes@,
{
    let mut packets: Vec<Packet> = Vec::new();
    let mut at: usize = 0;
    while at < bytes.len()
        invariant
            at <= bytes@.len(),
            at == 7 * packets@.len() || at == bytes@.len(),
            packets@.len() == chunk_count(at as nat),
            forall|k: int| 0 <= k < packets@.len() ==> packets@[k]@ == chunk_at(bytes@, k),
        decreases bytes@.len() - at,
    {
        let end: usize = if bytes.len() - at > MAX_PAYLOAD {
            at + MAX_PAYLOAD
        } else {
            bytes.len()
        };
        let mut held: Vec<u8> = Vec::new();
        append_range(&mut held, bytes, at, end);
        proof {
            assert(held@ =~= chunk_at(bytes@, packets@.len() as int));
        }
        packets.push(Packet { payload: held });
        at = end;
    }
    proof {
        assert(payloads(packets@) =~= chunks(bytes@));
        lemma_chunks_join(bytes@);
    }
    packets
}

/// Lays the payloads of `packets` end to end.
pub fn reassemble(packets: &[Packet]) -> (bytes: Vec<u8>)
    ensures
        bytes@ == joined(payloads(packets@)),
{
    let mut bytes: Vec<u8> = Vec::new();
    let mut at: usize = 0;
    while at < packets.len()
        invariant
            at <= packets@.len(),
            bytes@ == joined(payloads(packets@).take(at as int)),
        decreases packets@.len() - at,
    {
        let piece: &[u8] = packets[at].payload();
        append_range(&mut bytes, piece, 0, piece.len());
        proof {
            let upto = payloads(packets@).take(at as int + 1);
            assert(upto.drop_last() =~= payloads(packets@).take(at as int));
            assert(upto.last() == packets@[at as int]@);
            assert(piece@.subrange(0, piece@.len() as int) =~= piece@);
        }
        at = at + 1;
    }
    proof {
        assert(payloads(packets@).take(at as int) =~= payloads(packets@));
    }
    bytes
}

} // verus!
