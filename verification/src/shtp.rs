//! Sensor Hub Transport Protocol, as far as the IMU needs it.
//!
//! Every transfer starts with a 4-byte header: `len_lo, len_hi, channel, seq`.
//! `len` counts the header, bit 15 marks a continuation. A read shorter than
//! the packet makes the sensor send the remainder as a continuation on the
//! next read, with a header of its own to skip.

use vstd::prelude::*;
use crate::le::{le_bytes, lemma_le_bytes_len, to_le};

verus! {

/// Largest payload accepted. The post-reset advertisement is the biggest thing
/// the sensor sends (~280 bytes).
pub const MAX_PACKET: usize = 512;

/// Bytes per I2C read transaction.
pub const CHUNK: usize = 64;

/// Bytes of a transfer's header.
pub const HEADER: usize = 4;

/// Largest packet that is ever sent, with its header.
pub const MAX_WRITE: usize = 32;

/// Channels with a sequence number of their own.
pub const CHANNELS: usize = 6;

/// A packet on its way out.
pub open spec fn packet_bytes(channel: u8, seq: u8, payload: Seq<u8>) -> Seq<u8> {
    le_bytes((payload.len() + HEADER) as nat, 2) + seq![channel, seq] + payload
}

/// The number that follows another one; they start over behind 255.
pub open spec fn number_after(n: u8) -> u8 {
    ((n + 1) % 256) as u8
}

/// The channels' numbers after a packet went out on one of them.
pub open spec fn numbers_after(seq: Seq<u8>, channel: u8) -> Seq<u8> {
    seq.update(channel as int, number_after(seq[channel as int]))
}

/// The channels' numbers before anything was sent.
pub open spec fn first_numbers() -> Seq<u8> {
    Seq::new(CHANNELS as nat, |i: int| 0u8)
}

/// What goes out for a payload when these are the channels' numbers.
pub open spec fn sent(seq: Seq<u8>, channel: u8, payload: Seq<u8>) -> Seq<u8> {
    packet_bytes(channel, seq[channel as int], payload)
}

/// `buf` with `v` in it from `at` on.
pub open spec fn overwritten(buf: Seq<u8>, at: int, v: Seq<u8>) -> Seq<u8> {
    buf.take(at) + v + buf.skip(at + v.len())
}

/// A received packet: channel and payload length within the buffer.
#[derive(Clone, Copy, Debug, PartialEq, Eq, Structural)]
pub struct Packet {
    pub channel: u8,
    pub len: usize,
}

/// A packet that is still coming in. One too large for the buffer is read to
/// its end but not kept.
#[derive(Clone, Copy, Debug, PartialEq, Eq, Structural)]
pub struct Pending {
    pub channel: u8,
    pub len: usize,
    pub pos: usize,
    pub keep: bool,
}

/// What a read has come to.
#[derive(Clone, Copy, Debug, PartialEq, Eq, Structural)]
pub enum ReadStep {
    /// The sensor has nothing to say.
    Nothing,
    /// A packet is whole, in the buffer.
    Whole(Packet),
    /// A packet too large for the buffer has gone by.
    Dropped(Packet),
    /// The next transfer is to be read.
    More(Pending),
}

impl Pending {
    pub open spec fn wf(self) -> bool {
        &&& self.pos < self.len
        &&& self.len <= 0x7FFF
        &&& self.keep == (self.len <= MAX_PACKET)
    }

    /// How many bytes the next transfer has, with its header.
    pub open spec fn want(self) -> int {
        if self.len - self.pos + HEADER < CHUNK {
            self.len - self.pos + HEADER
        } else {
            CHUNK as int
        }
    }

    /// How many bytes to ask for in the next transfer.
    pub fn next_len(&self) -> (n: usize)
        requires
            self.wf(),
        ensures
            n == self.want(),
            HEADER < n <= CHUNK,
    {
        let left: usize = self.len - self.pos;
        if left < CHUNK - HEADER {
            left + HEADER
        } else {
            CHUNK
        }
    }
}

/// Where a packet stands once `p.pos` of its bytes are in.
pub open spec fn step_of(p: Pending) -> ReadStep {
    if p.pos < p.len {
        ReadStep::More(p)
    } else if p.keep {
        ReadStep::Whole(Packet { channel: p.channel, len: p.len })
    } else {
        ReadStep::Dropped(Packet { channel: p.channel, len: p.len })
    }
}

/// The length in a header, without the continuation bit.
pub open spec fn total_of(chunk: Seq<u8>) -> int {
    (chunk[0] as int + 256 * chunk[1] as int) % 0x8000
}

/// Whether the header of a first transfer announces a packet.
pub open spec fn announces(chunk: Seq<u8>) -> bool {
    HEADER <= total_of(chunk) && total_of(chunk) != 0x7FFF
}

/// The packet that a first transfer starts.
pub open spec fn started(chunk: Seq<u8>) -> Pending {
    let len = total_of(chunk) - HEADER;
    Pending {
        channel: chunk[2],
        len: len as usize,
        pos: (if len < CHUNK - HEADER {
            len
        } else {
            CHUNK - HEADER
        }) as usize,
        keep: len <= MAX_PACKET,
    }
}

/// What a first transfer comes to.
pub open spec fn first_step(chunk: Seq<u8>) -> ReadStep {
    if announces(chunk) {
        step_of(started(chunk))
    } else {
        ReadStep::Nothing
    }
}

/// The buffer after a first transfer.
pub open spec fn first_buf(buf: Seq<u8>, chunk: Seq<u8>) -> Seq<u8> {
    let p = started(chunk);
    if announces(chunk) && p.keep {
        overwritten(buf, 0, chunk.subrange(HEADER as int, HEADER + p.pos))
    } else {
        buf
    }
}

/// A packet with one more transfer in.
pub open spec fn grown(p: Pending, chunk: Seq<u8>) -> Pending {
    Pending { pos: (p.pos + chunk.len() - HEADER) as usize, ..p }
}

/// The buffer after one more transfer of a packet.
pub open spec fn next_buf(buf: Seq<u8>, p: Pending, chunk: Seq<u8>) -> Seq<u8> {
    if p.keep {
        overwritten(buf, p.pos as int, chunk.skip(HEADER as int))
    } else {
        buf
    }
}

/// Both directions of the transport.
pub struct Shtp {
    /// Per-channel outgoing sequence numbers.
    pub seq: [u8; CHANNELS],
    /// Sequence number for SH-2 command requests (separate from the others).
    pub command_seq: u8,
    /// The payload of the packet last received.
    pub buf: [u8; MAX_PACKET],
}

impl Shtp {
    pub fn new() -> (s: Shtp)
        ensures
            s.seq@ == first_numbers(),
            s.command_seq == 0,
            s.buf@ == Seq::new(MAX_PACKET as nat, |i: int| 0u8),
    {
        let s = Shtp { seq: [0u8; CHANNELS], command_seq: 0, buf: [0u8; MAX_PACKET] };
        assert(s.seq@ =~= first_numbers());
        assert(s.buf@ =~= Seq::new(MAX_PACKET as nat, |i: int| 0u8));
        s
    }

    /// The number of the next command request.
    pub fn next_command_seq(&mut self) -> (s: u8)
        ensures
            s == old(self).command_seq,
            final(self).command_seq == number_after(s),
            final(self).seq == old(self).seq,
            final(self).buf == old(self).buf,
    {
        let s: u8 = self.command_seq;
        self.command_seq = s.wrapping_add(1);
        s
    }

    /// The payload of a packet that was received.
    pub fn payload(&self, p: &Packet) -> (out: &[u8])
        requires
            p.len <= MAX_PACKET,
        ensures
            out@ == self.buf@.take(p.len as int),
    {
        let out: &[u8] = vstd::slice::slice_subrange(self.buf.as_slice(), 0, p.len);
        assert(out@ =~= self.buf@.take(p.len as int));
        out
    }

    /// Frames a payload for the bus. The channel's sequence number is used up
    /// whether or not the transfer then succeeds.
    pub fn write(&mut self, channel: u8, payload: &[u8]) -> (out: Vec<u8>)
        requires
            channel < CHANNELS,
            payload@.len() + HEADER <= MAX_WRITE,
        ensures
            out@ == sent(old(self).seq@, channel, payload@),
            final(self).seq@ == numbers_after(old(self).seq@, channel),
            final(self).command_seq == old(self).command_seq,
            final(self).buf == old(self).buf,
    {
        let seq: u8 = self.seq[channel as usize];
        let mut out: Vec<u8> = to_le((payload.len() + HEADER) as u64, 2);
        out.push(channel);
        out.push(seq);
        let mut i: usize = 0;
        let ghost head = le_bytes((payload@.len() + HEADER) as nat, 2) + seq![channel, seq];
        assert(out@ =~= head + payload@.take(0));
        while i < payload.len()
            invariant
                i <= payload@.len(),
                out@ =~= head + payload@.take(i as int),
            decreases payload@.len() - i,
        {
            out.push(payload[i]);
            i = i + 1;
        }
        assert(payload@.take(i as int) =~= payload@);
        self.seq[channel as usize] = seq.wrapping_add(1);
        out
    }

    fn store(&mut self, at: usize, v: &[u8])
        requires
            at + v@.len() <= MAX_PACKET,
        ensures
            final(self).buf@ == overwritten(old(self).buf@, at as int, v@),
            final(self).seq == old(self).seq,
            final(self).command_seq == old(self).command_seq,
    {
        let mut i: usize = 0;
        let ghost before = self.buf@;
        assert(self.buf@ =~= overwritten(before, at as int, v@.take(0)));
        while i < v.len()
            invariant
                i <= v@.len(),
                at + v@.len() <= MAX_PACKET,
                before.len() == MAX_PACKET,
                self.buf@ =~= overwritten(before, at as int, v@.take(i as int)),
                self.seq == old(self).seq,
                self.command_seq == old(self).command_seq,
            decreases v@.len() - i,
        {
            self.buf[at + i] = v[i];
            i = i + 1;
        }
        assert(v@.take(i as int) =~= v@);
    }

    /// Takes the first transfer of a read, [`CHUNK`] bytes.
    pub fn begin_read(&mut self, chunk: &[u8]) -> (step: ReadStep)
        requires
            chunk@.len() == CHUNK,
        ensures
            step == first_step(chunk@),
            final(self).buf@ == first_buf(old(self).buf@, chunk@),
            final(self).seq == old(self).seq,
            final(self).command_seq == old(self).command_seq,
            step matches ReadStep::More(p) ==> p.wf(),
            step matches ReadStep::Whole(p) ==> p.len <= MAX_PACKET,
    {
        let raw: usize = chunk[0] as usize + 256 * (chunk[1] as usize);
        let total: usize = raw % 0x8000;
        if total < HEADER || total == 0x7FFF {
            return ReadStep::Nothing;
        }
        let len: usize = total - HEADER;
        let keep: bool = len <= MAX_PACKET;
        let got: usize = if len < CHUNK - HEADER {
            len
        } else {
            CHUNK - HEADER
        };
        if keep {
            self.store(0, vstd::slice::slice_subrange(chunk, HEADER, HEADER + got));
        }
        Self::arrived(Pending { channel: chunk[2], len, pos: got, keep })
    }

    /// Takes one more transfer of a packet.
    pub fn continue_read(&mut self, p: Pending, chunk: &[u8]) -> (step: ReadStep)
        requires
            p.wf(),
            chunk@.len() == p.want(),
        ensures
            step == step_of(grown(p, chunk@)),
            final(self).buf@ == next_buf(old(self).buf@, p, chunk@),
            final(self).seq == old(self).seq,
            final(self).command_seq == old(self).command_seq,
            step matches ReadStep::More(q) ==> q.wf(),
            step matches ReadStep::Whole(q) ==> q.len <= MAX_PACKET,
    {
        let n: usize = chunk.len();
        if p.keep {
            let body: &[u8] = vstd::slice::slice_subrange(chunk, HEADER, n);
            assert(body@ =~= chunk@.skip(HEADER as int));
            self.store(p.pos, body);
        }
        Self::arrived(
            Pending { channel: p.channel, len: p.len, pos: p.pos + (n - HEADER), keep: p.keep },
        )
    }

    fn arrived(p: Pending) -> (step: ReadStep)
        ensures
            step == step_of(p),
    {
        if p.pos < p.len {
            ReadStep::More(p)
        } else if p.keep {
            ReadStep::Whole(Packet { channel: p.channel, len: p.len })
        } else {
            ReadStep::Dropped(Packet { channel: p.channel, len: p.len })
        }
    }
}

/// Buffer and outcome after the transfers `chunks` that follow `step`.
pub open spec fn run(buf: Seq<u8>, step: ReadStep, chunks: Seq<Seq<u8>>) -> (Seq<u8>, ReadStep)
    decreases chunks.len(),
{
    match step {
        ReadStep::More(p) if chunks.len() > 0 => run(
            next_buf(buf, p, chunks[0]),
            step_of(grown(p, chunks[0])),
            chunks.drop_first(),
        ),
        _ => (buf, step),
    }
}

/// The transfers by which the sensor sends what is left of `payload` from
/// `pos` on: each as long as it is asked for, with a header that may be
/// anything, and the next stretch of the payload behind it.
pub open spec fn carry(chunks: Seq<Seq<u8>>, p: Pending, payload: Seq<u8>) -> bool
    decreases chunks.len(),
{
    if p.pos >= p.len {
        chunks.len() == 0
    } else {
        &&& chunks.len() > 0
        &&& chunks[0].len() == p.want()
        &&& chunks[0].skip(HEADER as int) == payload.subrange(
            p.pos as int,
            p.pos + p.want() - HEADER,
        )
        &&& carry(chunks.drop_first(), grown(p, chunks[0]), payload)
    }
}

/// A first transfer of a packet with this channel and payload.
pub open spec fn starts(chunk: Seq<u8>, channel: u8, payload: Seq<u8>) -> bool {
    &&& chunk.len() == CHUNK
    &&& total_of(chunk) == payload.len() + HEADER
    &&& chunk[2] == channel
    &&& chunk.subrange(HEADER as int, HEADER + started(chunk).pos) == payload.take(
        started(chunk).pos as int,
    )
}

proof fn lemma_transfers(buf: Seq<u8>, p: Pending, chunks: Seq<Seq<u8>>, payload: Seq<u8>)
    requires
        buf.len() == MAX_PACKET,
        p.len == payload.len(),
        p.pos <= p.len <= 0x7FFF,
        p.keep == (p.len <= MAX_PACKET),
        carry(chunks, p, payload),
        p.keep ==> buf.take(p.pos as int) == payload.take(p.pos as int),
    ensures
        ({
            let (after, step) = run(buf, step_of(p), chunks);
            if p.keep {
                &&& step == ReadStep::Whole(Packet { channel: p.channel, len: p.len })
                &&& after.take(p.len as int) == payload
            } else {
                &&& step == ReadStep::Dropped(Packet { channel: p.channel, len: p.len })
                &&& after == buf
            }
        }),
    decreases chunks.len(),
{
    if p.pos >= p.len {
        assert(payload.take(p.pos as int) =~= payload);
    } else {
        let c = chunks[0];
        let more = grown(p, c);
        let after = next_buf(buf, p, c);
        if p.keep {
            let body = c.skip(HEADER as int);
            assert(after.take(more.pos as int) =~= buf.take(p.pos as int) + body);
            assert(payload.take(more.pos as int) =~= payload.take(p.pos as int)
                + payload.subrange(p.pos as int, p.pos + p.want() - HEADER));
        }
        lemma_transfers(after, more, chunks.drop_first(), payload);
    }
}

/// A packet that fits the buffer is received as it was sent, whatever was in
/// the buffer and whatever the headers of its later transfers hold.
pub proof fn law_packet_arrives(
    buf: Seq<u8>,
    first: Seq<u8>,
    rest: Seq<Seq<u8>>,
    channel: u8,
    payload: Seq<u8>,
)
    requires
        buf.len() == 512,
        payload.len() <= 512,
        starts(first, channel, payload),
        carry(rest, started(first), payload),
    ensures
        ({
            let (after, step) = run(first_buf(buf, first), first_step(first), rest);
            &&& step == ReadStep::Whole(Packet { channel, len: payload.len() as usize })
            &&& after.take(payload.len() as int) == payload
        }),
{
    let p = started(first);
    assert(first_buf(buf, first).take(p.pos as int) =~= payload.take(p.pos as int));
    lemma_transfers(first_buf(buf, first), p, rest, payload);
}

/// A packet too large for the buffer is read to its end and dropped, and the
/// buffer is left alone. `0x7FFF` as a length stands for no packet.
pub proof fn law_oversized_packet_is_dropped(
    buf: Seq<u8>,
    first: Seq<u8>,
    rest: Seq<Seq<u8>>,
    channel: u8,
    payload: Seq<u8>,
)
    requires
        buf.len() == 512,
        512 < payload.len() < 0x7FFF - 4,
        starts(first, channel, payload),
        carry(rest, started(first), payload),
    ensures
        run(first_buf(buf, first), first_step(first), rest) == (
            buf,
            ReadStep::Dropped(Packet { channel, len: payload.len() as usize }),
        ),
{
    lemma_transfers(buf, started(first), rest, payload);
}

/// A header that says less than its own length, or has every bit of its length
/// set, stands for no packet.
pub proof fn law_idle_header(chunk: Seq<u8>)
    requires
        chunk.len() == 64,
    ensures
        first_step(chunk) == ReadStep::Nothing <==> ({
            let len = (chunk[0] + 256 * chunk[1]) % 0x8000;
            len < 4 || len == 0x7FFF
        }),
{
}

/// What is sent says its own length, with the header counted.
pub proof fn law_packet_says_its_length(channel: u8, seq: u8, payload: Seq<u8>)
    requires
        payload.len() + HEADER < 0x8000,
    ensures
        packet_bytes(channel, seq, payload).len() == payload.len() + HEADER,
        total_of(packet_bytes(channel, seq, payload)) == payload.len() + HEADER,
        packet_bytes(channel, seq, payload)[2] == channel,
        packet_bytes(channel, seq, payload)[3] == seq,
        packet_bytes(channel, seq, payload).skip(HEADER as int) == payload,
{
    let n = (payload.len() + HEADER) as nat;
    lemma_le_bytes_len(n, 2);
    reveal_with_fuel(le_bytes, 3);
    assert(packet_bytes(channel, seq, payload).skip(HEADER as int) =~= payload);
}

/// The packets of a channel are numbered one behind the other, from 255 on to
/// 0, and those of other channels do not count.
pub proof fn law_packets_are_numbered(
    seq: Seq<u8>,
    channel: u8,
    other: u8,
    first: Seq<u8>,
    second: Seq<u8>,
)
    requires
        seq.len() == 6,
        channel < 6,
        other < 6,
        other != channel,
        first.len() <= 28,
        second.len() <= 28,
    ensures
        first_numbers().len() == 6,
        sent(first_numbers(), channel, first)[3] == 0,
        numbers_after(seq, channel).len() == 6,
        sent(seq, channel, first)[2] == channel,
        sent(seq, channel, first)[3] == seq[channel as int],
        sent(seq, channel, first).skip(4) == first,
        sent(numbers_after(seq, channel), channel, second)[3] == (if seq[channel as int] == 255 {
            0
        } else {
            seq[channel as int] + 1
        }),
        sent(numbers_after(seq, channel), other, second) == sent(seq, other, second),
{
    law_packet_says_its_length(channel, 0, first);
    law_packet_says_its_length(channel, seq[channel as int], first);
    let after = numbers_after(seq, channel);
    law_packet_says_its_length(channel, after[channel as int], second);
}

/// How the sensor is read: the first transfer says how long the packet is, with
/// its header counted and without the continuation bit, and on which channel;
/// it brings up to 60 bytes, and each later one as many as are left, up to 60.
pub proof fn law_transfers_are_sized(chunk: Seq<u8>, p: Pending)
    requires
        chunk.len() == 64,
        announces(chunk),
        p.wf(),
    ensures
        ({
            let s = started(chunk);
            let len = (chunk[0] + 256 * chunk[1]) % 0x8000 - 4;
            &&& s.len == len && s.channel == chunk[2]
            &&& s.pos == (if len < 60 {
                len
            } else {
                60
            })
            &&& s.keep <==> len <= 512
        }),
        p.want() == (if p.len - p.pos < 60 {
            p.len - p.pos + 4
        } else {
            64
        }),
{
}

/// What is sent reads back by the rules of what is received.
pub proof fn law_sent_packet_reads_back(channel: u8, seq: u8, payload: Seq<u8>, filler: Seq<u8>)
    requires
        payload.len() <= 60,
        filler.len() == 60 - payload.len(),
    ensures
        ({
            let chunk = packet_bytes(channel, seq, payload) + filler;
            &&& first_step(chunk) == ReadStep::Whole(
                Packet { channel, len: payload.len() as usize },
            )
            &&& chunk.subrange(4, 4 + payload.len() as int) == payload
            &&& chunk[3] == seq
        }),
{
    law_packet_says_its_length(channel, seq, payload);
    let p = packet_bytes(channel, seq, payload);
    let chunk = p + filler;
    assert(chunk[0] == p[0] && chunk[1] == p[1] && chunk[2] == p[2] && chunk[3] == p[3]);
    assert(total_of(chunk) == total_of(p));
    assert(chunk.subrange(4, 4 + payload.len() as int) =~= p.skip(4));
}

} // verus!
