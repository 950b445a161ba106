//! What the receiver's stream as a whole comes to: the sentences that it
//! carries, and the store after them.

use vstd::prelude::*;
use crate::gnss::{reading_of, with_reading, MAX_SENTENCE};
use crate::nmea::{
    last_position, law_pieces_do_not_matter, line_after, line_after_all, line_with, lines_ended,
    payload_of, payloads,
};
use crate::telemetry::Telemetry;

verus! {

/// `s` without the filler of an empty stream.
pub open spec fn without_filler(s: Seq<u8>) -> Seq<u8>
    decreases s.len(),
{
    if s.len() == 0 {
        s
    } else if s.last() == 0xFF {
        without_filler(s.drop_last())
    } else {
        without_filler(s.drop_last()).push(s.last())
    }
}

/// Where the line that `s` ends in starts: at the last `$` or behind the last
/// newline, whichever comes later.
pub open spec fn line_start(s: Seq<u8>) -> int {
    if last_position(s, 0x24) > last_position(s, 0x0A) {
        last_position(s, 0x24)
    } else {
        last_position(s, 0x0A) + 1
    }
}

/// The segments of `s`, in order: one for each newline, from where its line
/// starts up to the newline itself.
pub open spec fn segments(s: Seq<u8>) -> Seq<Seq<u8>>
    decreases s.len(),
{
    if s.len() == 0 {
        Seq::empty()
    } else if s.last() == 0x0A {
        segments(s.drop_last()).push(s.skip(line_start(s.drop_last())))
    } else {
        segments(s.drop_last())
    }
}

/// The segments of at most [`MAX_SENTENCE`] bytes.
pub open spec fn fitting(segs: Seq<Seq<u8>>) -> Seq<Seq<u8>>
    decreases segs.len(),
{
    if segs.len() == 0 {
        Seq::empty()
    } else if segs.last().len() <= MAX_SENTENCE {
        fitting(segs.drop_last()).push(segs.last())
    } else {
        fitting(segs.drop_last())
    }
}

/// The sentences that a stream carries: the payloads of its segments that fit
/// and pass the check, in order.
pub open spec fn sentences_of(s: Seq<u8>) -> Seq<Seq<u8>> {
    payloads(fitting(segments(without_filler(s))))
}

/// `s` as far as a line holds it.
spec fn cut(s: Seq<u8>) -> Seq<u8> {
    if s.len() <= MAX_SENTENCE {
        s
    } else {
        s.take(MAX_SENTENCE as int)
    }
}

proof fn lemma_last_position(s: Seq<u8>, b: u8)
    ensures
        -1 <= last_position(s, b) < s.len(),
        forall|i: int| last_position(s, b) < i < s.len() ==> s[i] != b,
    decreases s.len(),
{
    if s.len() > 0 && s.last() != b {
        lemma_last_position(s.drop_last(), b);
        assert forall|i: int| last_position(s, b) < i < s.len() implies s[i] != b by {
            if i < s.len() - 1 {
                assert(s[i] == s.drop_last()[i]);
            }
        }
    }
}

proof fn lemma_without_filler(line: Seq<u8>, s: Seq<u8>)
    ensures
        line_after_all(line, without_filler(s)) == line_after_all(line, s),
        lines_ended(line, without_filler(s)) == lines_ended(line, s),
        forall|i: int| 0 <= i < without_filler(s).len() ==> without_filler(s)[i] != 0xFF,
    decreases s.len(),
{
    if s.len() > 0 {
        lemma_without_filler(line, s.drop_last());
        if s.last() != 0xFF {
            assert(without_filler(s).drop_last() =~= without_filler(s.drop_last()));
        }
    }
}

/// What is collected of a stream without filler is its last line, as far as it
/// fits.
proof fn lemma_collected(s: Seq<u8>)
    requires
        forall|i: int| 0 <= i < s.len() ==> s[i] != 0xFF,
    ensures
        0 <= line_start(s) <= s.len(),
        line_after_all(Seq::empty(), s) == cut(s.skip(line_start(s))),
    decreases s.len(),
{
    lemma_last_position(s, 0x24);
    lemma_last_position(s, 0x0A);
    if s.len() > 0 {
        let before = s.drop_last();
        lemma_collected(before);
        lemma_last_position(before, 0x24);
        lemma_last_position(before, 0x0A);
        let b = s.last();
        assert(b == s[s.len() - 1]);
        if b == 0x0A {
            assert(s.skip(line_start(s)) =~= Seq::<u8>::empty());
        } else if b == 0x24 {
            assert(s.skip(line_start(s)) =~= seq![b]);
        } else {
            assert(line_start(s) == line_start(before));
            assert(s.skip(line_start(s)) =~= before.skip(line_start(before)).push(b));
            assert(line_after(cut(before.skip(line_start(before))), b) =~= cut(
                s.skip(line_start(s)),
            ));
        }
    } else {
        assert(s.skip(0) =~= Seq::<u8>::empty());
    }
}

/// The lines that a stream without filler ends give the payloads of its
/// fitting segments: a line that was cut has lost its newline and fails.
proof fn lemma_segments(s: Seq<u8>)
    requires
        forall|i: int| 0 <= i < s.len() ==> s[i] != 0xFF,
    ensures
        payloads(lines_ended(Seq::empty(), s)) == payloads(fitting(segments(s))),
    decreases s.len(),
{
    if s.len() > 0 {
        let before = s.drop_last();
        lemma_segments(before);
        if s.last() == 0x0A {
            lemma_collected(before);
            lemma_last_position(before, 0x0A);
            lemma_last_position(before, 0x24);
            let body = before.skip(line_start(before));
            let seg = s.skip(line_start(before));
            let line = line_with(cut(body), 0x0A);
            let lines = lines_ended(Seq::empty(), before);
            assert(seg =~= body.push(0x0A));
            assert(lines.push(line).drop_last() =~= lines);
            assert(segments(s).drop_last() =~= segments(before));
            if seg.len() <= MAX_SENTENCE {
                assert(line =~= seg);
                assert(fitting(segments(s)).drop_last() =~= fitting(segments(before)));
            } else {
                assert(line =~= body.take(MAX_SENTENCE as int));
                assert(line.last() == before[line_start(before) + MAX_SENTENCE - 1]);
                assert(line.skip(1).last() == line.last());
                assert(payload_of(line) is None);
            }
        }
    }
}

/// However it is filled up, the lines that a stream ends are its segments, each
/// from the last `$` or the newline before, and what comes out of them is the
/// payloads of those that fit and pass the check, in order.
pub proof fn law_stream_gives_its_sentences(s: Seq<u8>)
    ensures
        payloads(lines_ended(Seq::empty(), s)) == sentences_of(s),
{
    lemma_without_filler(Seq::empty(), s);
    lemma_segments(without_filler(s));
}

/// The store after some sentences, in order. `at` tells when each sentence of
/// the stream was handled, and `first` is the number of the first of these.
pub open spec fn stored(
    t: Telemetry,
    sentences: Seq<Seq<u8>>,
    first: nat,
    at: spec_fn(nat) -> u64,
) -> Telemetry
    decreases sentences.len(),
{
    if sentences.len() == 0 {
        t
    } else {
        with_reading(
            stored(t, sentences.drop_last(), first, at),
            reading_of(sentences.last()),
            at((first + sentences.len() - 1) as nat),
        )
    }
}

/// What a reader has come to.
pub struct Progress {
    /// The line being collected.
    pub line: Seq<u8>,
    /// How many sentences have been handled.
    pub handled: nat,
    pub store: Telemetry,
}

/// A reader that started with store `t`, after some reads of the stream. Each
/// read feeds its bytes and stores the sentences that they complete; one that
/// failed has no bytes.
pub open spec fn after_reads(
    t: Telemetry,
    reads: Seq<Seq<u8>>,
    at: spec_fn(nat) -> u64,
) -> Progress
    decreases reads.len(),
{
    if reads.len() == 0 {
        Progress { line: Seq::empty(), handled: 0, store: t }
    } else {
        let p = after_reads(t, reads.drop_last(), at);
        let sentences = payloads(lines_ended(p.line, reads.last()));
        Progress {
            line: line_after_all(p.line, reads.last()),
            handled: p.handled + sentences.len(),
            store: stored(p.store, sentences, p.handled, at),
        }
    }
}

/// The bytes of some reads, in order.
pub open spec fn joined(reads: Seq<Seq<u8>>) -> Seq<u8>
    decreases reads.len(),
{
    if reads.len() == 0 {
        Seq::empty()
    } else {
        joined(reads.drop_last()) + reads.last()
    }
}

proof fn lemma_payloads_add_up(a: Seq<Seq<u8>>, b: Seq<Seq<u8>>)
    ensures
        payloads(a + b) == payloads(a) + payloads(b),
    decreases b.len(),
{
    if b.len() == 0 {
        assert(a + b =~= a);
        assert(payloads(a) + payloads(b) =~= payloads(a));
    } else {
        lemma_payloads_add_up(a, b.drop_last());
        assert((a + b).drop_last() =~= a + b.drop_last());
        assert(payloads(a + b) =~= payloads(a) + payloads(b));
    }
}

proof fn lemma_stored_add_up(
    t: Telemetry,
    a: Seq<Seq<u8>>,
    b: Seq<Seq<u8>>,
    at: spec_fn(nat) -> u64,
)
    ensures
        stored(t, a + b, 0, at) == stored(stored(t, a, 0, at), b, a.len(), at),
    decreases b.len(),
{
    if b.len() == 0 {
        assert(a + b =~= a);
    } else {
        lemma_stored_add_up(t, a, b.drop_last(), at);
        assert((a + b).drop_last() =~= a + b.drop_last());
    }
}

proof fn lemma_reads(t: Telemetry, reads: Seq<Seq<u8>>, at: spec_fn(nat) -> u64)
    ensures
        ({
            let p = after_reads(t, reads, at);
            let sentences = payloads(lines_ended(Seq::empty(), joined(reads)));
            &&& p.line == line_after_all(Seq::empty(), joined(reads))
            &&& p.handled == sentences.len()
            &&& p.store == stored(t, sentences, 0, at)
        }),
    decreases reads.len(),
{
    if reads.len() > 0 {
        let before = joined(reads.drop_last());
        let last = reads.last();
        lemma_reads(t, reads.drop_last(), at);
        law_pieces_do_not_matter(Seq::empty(), before, last);
        let a = lines_ended(Seq::empty(), before);
        let b = lines_ended(line_after_all(Seq::empty(), before), last);
        lemma_payloads_add_up(a, b);
        lemma_stored_add_up(t, payloads(a), payloads(b), at);
    }
}

/// The store changes exactly by the sentences that the stream carries, once for
/// each and in order, and by nothing else. How the stream was split into reads,
/// and reads that failed in between, make no difference.
pub proof fn law_store_follows_the_stream(
    t: Telemetry,
    reads: Seq<Seq<u8>>,
    at: spec_fn(nat) -> u64,
)
    ensures
        after_reads(t, reads, at).store == stored(t, sentences_of(joined(reads)), 0, at),
        after_reads(t, reads, at).handled == sentences_of(joined(reads)).len(),
{
    lemma_reads(t, reads, at);
    law_stream_gives_its_sentences(joined(reads));
}

} // verus!
