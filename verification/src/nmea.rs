//! The receiver's byte stream: NMEA lines, their checksums, and the polling of
//! the receiver.

use vstd::prelude::*;
use vstd::string::*;
use crate::gnss::{CHUNK, MAX_SENTENCE, POLL_INTERVAL_MS, RETRY_INTERVAL_MS};
use crate::text::{
    digit_value, is_number, lacks, number_value, parse_unsigned, unsigned, unsigned_part, utf8,
};

verus! {

/// All bytes of `s` combined by exclusive or.
pub open spec fn xor_of(s: Seq<u8>) -> u8
    decreases s.len(),
{
    if s.len() == 0 {
        0
    } else {
        xor_of(s.drop_last()) ^ s.last()
    }
}

/// Index of the last `b` in `s`, or -1.
pub open spec fn last_position(s: Seq<u8>, b: u8) -> int
    decreases s.len(),
{
    if s.len() == 0 || s.last() == b {
        s.len() - 1
    } else {
        last_position(s.drop_last(), b)
    }
}

/// `s` without its line ending, `\r\n` or `\n`.
pub open spec fn without_line_end(s: Seq<u8>) -> Option<Seq<u8>> {
    if s.len() >= 2 && s[s.len() - 2] == 0x0D && s.last() == 0x0A {
        Some(s.take(s.len() - 2))
    } else if s.len() >= 1 && s.last() == 0x0A {
        Some(s.drop_last())
    } else {
        None
    }
}

/// The payload of `payload*hh`: text whose bytes combine to the hexadecimal
/// number behind the last star.
pub open spec fn verified_payload(s: Seq<u8>) -> Option<Seq<u8>> {
    let star = last_position(s, 0x2A);
    if star < 0 {
        None
    } else {
        let payload = s.take(star);
        if unsigned(s.skip(star + 1), 16, 0xFF) == Some(xor_of(payload) as nat)
            && vstd::utf8::valid_utf8(payload) {
            Some(payload)
        } else {
            None
        }
    }
}

/// The payload of a raw line: what stands between `$` and `*hh` plus the line
/// ending, when the checksum agrees.
pub open spec fn payload_of(raw: Seq<u8>) -> Option<Seq<u8>> {
    if raw.len() == 0 || raw[0] != 0x24 {
        None
    } else {
        match without_line_end(raw.skip(1)) {
            Some(body) => verified_payload(body),
            None => None,
        }
    }
}

proof fn lemma_last_position_is(s: Seq<u8>, b: u8, p: int)
    requires
        -1 <= p < s.len(),
        forall|i: int| p < i < s.len() ==> s[i] != b,
        p >= 0 ==> s[p] == b,
    ensures
        last_position(s, b) == p,
    decreases s.len(),
{
    if s.len() > 0 && p < s.len() - 1 {
        lemma_last_position_is(s.drop_last(), b, p);
    }
}

fn xor(s: &[u8]) -> (x: u8)
    ensures
        x == xor_of(s@),
{
    let mut x: u8 = 0;
    let mut i: usize = 0;
    assert(s@.take(0) =~= Seq::empty());
    while i < s.len()
        invariant
            i <= s@.len(),
            x == xor_of(s@.take(i as int)),
        decreases s@.len() - i,
    {
        assert(s@.take(i + 1).drop_last() =~= s@.take(i as int));
        x = x ^ s[i];
        i = i + 1;
    }
    assert(s@.take(i as int) =~= s@);
    x
}

/// Strips `$`, `*hh` and line ending, verifies the XOR checksum, and returns
/// the payload (`GNGGA,123519,...`).
pub fn checked_sentence<'a>(raw: &'a [u8]) -> (out: Option<&'a str>)
    ensures
        match out {
            Some(s) => payload_of(raw@) == Some(s.spec_bytes()),
            None => payload_of(raw@) is None,
        },
{
    if raw.len() == 0 || raw[0] != 0x24 {
        return None;
    }
    let n: usize = raw.len();
    let end: usize = if n >= 3 && raw[n - 2] == 0x0D && raw[n - 1] == 0x0A {
        n - 2
    } else if n >= 2 && raw[n - 1] == 0x0A {
        n - 1
    } else {
        assert(without_line_end(raw@.skip(1)) is None);
        return None;
    };
    let body: &'a [u8] = vstd::slice::slice_subrange(raw, 1, end);
    assert(without_line_end(raw@.skip(1)) is Some);
    assert(without_line_end(raw@.skip(1))->Some_0 =~= body@);
    let mut star: usize = body.len();
    while star > 0 && body[star - 1] != 0x2A
        invariant
            star <= body@.len(),
            forall|i: int| star <= i < body@.len() ==> body@[i] != 0x2A,
        decreases star,
    {
        star = star - 1;
    }
    proof {
        lemma_last_position_is(body@, 0x2A, star - 1);
    }
    if star == 0 {
        return None;
    }
    let payload: &'a [u8] = vstd::slice::slice_subrange(body, 0, star - 1);
    let hex: &'a [u8] = vstd::slice::slice_subrange(body, star, body.len());
    assert(payload@ =~= body@.take(star - 1));
    assert(hex@ =~= body@.skip(star as int));
    let want: u64 = match parse_unsigned(hex, 16, 0xFF) {
        Some(v) => v,
        None => {
            return None;
        },
    };
    if want != xor(payload) as u64 {
        return None;
    }
    utf8(payload)
}

/// The line being collected, after one more byte. `0xFF` is the filler of an
/// empty stream; `$` starts a line afresh; what does not fit is dropped; a
/// newline ends the line.
pub open spec fn line_after(line: Seq<u8>, b: u8) -> Seq<u8> {
    if b == 0x0A {
        Seq::empty()
    } else {
        line_with(line, b)
    }
}

/// The line being collected with `b` added, before a newline ends it.
pub open spec fn line_with(line: Seq<u8>, b: u8) -> Seq<u8> {
    if b == 0xFF {
        line
    } else if b == 0x24 {
        seq![b]
    } else if line.len() < MAX_SENTENCE {
        line.push(b)
    } else {
        line
    }
}

/// The line being collected, after a run of bytes.
pub open spec fn line_after_all(line: Seq<u8>, data: Seq<u8>) -> Seq<u8>
    decreases data.len(),
{
    if data.len() == 0 {
        line
    } else {
        line_after(line_after_all(line, data.drop_last()), data.last())
    }
}

/// The lines that a run of bytes ends, in order.
pub open spec fn lines_ended(line: Seq<u8>, data: Seq<u8>) -> Seq<Seq<u8>>
    decreases data.len(),
{
    if data.len() == 0 {
        Seq::empty()
    } else {
        let before = data.drop_last();
        if data.last() == 0x0A {
            lines_ended(line, before).push(line_with(line_after_all(line, before), 0x0A))
        } else {
            lines_ended(line, before)
        }
    }
}

/// The payloads of the lines that pass the check, in order.
pub open spec fn payloads(lines: Seq<Seq<u8>>) -> Seq<Seq<u8>>
    decreases lines.len(),
{
    if lines.len() == 0 {
        Seq::empty()
    } else {
        match payload_of(lines.last()) {
            Some(p) => payloads(lines.drop_last()).push(p),
            None => payloads(lines.drop_last()),
        }
    }
}

/// The UTF-8 bytes of each string.
pub open spec fn string_bytes(v: Seq<String>) -> Seq<Seq<u8>> {
    Seq::new(v.len(), |i: int| vstd::utf8::encode_utf8(v[i]@))
}

/// What to do next about the receiver.
#[derive(Clone, Copy, Debug, PartialEq, Eq, Structural)]
pub enum GnssAction {
    /// Sleep for so many milliseconds, then ask how many bytes are waiting.
    QueryAfter(u64),
    /// Ask how many bytes are waiting.
    Query,
    /// Read so many bytes of the data stream.
    Read(usize),
}

/// A change worth telling the operator.
#[derive(Clone, Copy, Debug, PartialEq, Eq, Structural)]
pub enum GnssNotice {
    /// The receiver answers again.
    Responding,
    /// The receiver has stopped answering.
    Failing(BusFault),
}

/// Why a transfer failed.
#[derive(Clone, Copy, Debug, PartialEq, Eq, Structural)]
pub enum BusFault {
    /// The receiver did not acknowledge its address: it is booting or idle.
    Nack,
    /// Anything else: it may not be plugged in or powered.
    Other,
}

/// How many bytes wait, from the two bytes of the count register. The receiver
/// answers `0xFFFF` while it is still booting.
pub open spec fn available(count: [u8; 2]) -> usize {
    let n = 256 * count[0] as int + count[1] as int;
    if n == 0xFFFF {
        0
    } else {
        n as usize
    }
}

pub fn bytes_available(count: [u8; 2]) -> (n: usize)
    ensures
        n == available(count),
        n < 0xFFFF,
{
    let n: usize = 256 * (count[0] as usize) + count[1] as usize;
    if n == 0xFFFF {
        0
    } else {
        n
    }
}

/// The size of the next read when `remaining` bytes are still to come.
pub open spec fn read_size(remaining: int) -> int {
    if remaining < CHUNK {
        remaining
    } else {
        CHUNK as int
    }
}

/// What follows a count of `n` bytes waiting.
pub open spec fn after_count(n: usize) -> GnssAction {
    if n == 0 {
        GnssAction::QueryAfter(POLL_INTERVAL_MS)
    } else {
        GnssAction::Read(read_size(n as int) as usize)
    }
}

/// What follows the answer to a query.
pub open spec fn after_query(count: Result<[u8; 2], BusFault>) -> GnssAction {
    match count {
        Ok(c) => after_count(available(c)),
        Err(_) => GnssAction::QueryAfter(RETRY_INTERVAL_MS),
    }
}

/// What the answer to a query is worth telling, after one that failed or not.
pub open spec fn notice_of(had_error: bool, count: Result<[u8; 2], BusFault>) -> Option<
    GnssNotice,
> {
    match count {
        Ok(_) => if had_error {
            Some(GnssNotice::Responding)
        } else {
            None
        },
        Err(fault) => if had_error {
            None
        } else {
            Some(GnssNotice::Failing(fault))
        },
    }
}

/// Bytes of a burst that are still to be read after the answer to a query.
pub open spec fn burst_of(count: Result<[u8; 2], BusFault>) -> usize {
    match count {
        Ok(c) => available(c),
        Err(_) => 0,
    }
}

/// What follows a read that leaves so many bytes of a burst.
pub open spec fn after_data(left: int) -> GnssAction {
    if left == 0 {
        GnssAction::Query
    } else {
        GnssAction::Read(read_size(left) as usize)
    }
}

/// The polling of one receiver.
pub struct GnssReader {
    /// The line being collected.
    pub line: Vec<u8>,
    /// Bytes of the current burst that are still to be read.
    pub remaining: usize,
    /// The last query failed.
    pub had_error: bool,
}

/// What a reader holds before the first query.
pub open spec fn held_at_first() -> (Seq<u8>, int, bool) {
    (Seq::empty(), 0, false)
}

/// What a reader holds after the answer to a query: the line collected so far,
/// the bytes of the burst still to come, and whether the query failed.
pub open spec fn after_answer(
    held: (Seq<u8>, int, bool),
    count: Result<[u8; 2], BusFault>,
) -> (Seq<u8>, int, bool) {
    (held.0, burst_of(count) as int, count is Err)
}

/// What a reader holds after the answer to a read.
pub open spec fn after_read(
    held: (Seq<u8>, int, bool),
    data: Option<Seq<u8>>,
) -> (Seq<u8>, int, bool) {
    match data {
        Some(d) => (line_after_all(held.0, d), held.1 - d.len(), held.2),
        None => (held.0, 0, held.2),
    }
}

/// The sentences that the answer to a read completes.
pub open spec fn sentences_in(held: (Seq<u8>, int, bool), data: Option<Seq<u8>>) -> Seq<Seq<u8>> {
    match data {
        Some(d) => payloads(lines_ended(held.0, d)),
        None => Seq::empty(),
    }
}

/// What follows the answer to a read when so many bytes are left.
pub open spec fn next_read(left: int, data: Option<Seq<u8>>) -> GnssAction {
    match data {
        Some(_) => after_data(left),
        None => GnssAction::Query,
    }
}

impl GnssReader {
    /// The line being collected, the bytes of the burst still to come, and
    /// whether the last query failed.
    pub open spec fn held(self) -> (Seq<u8>, int, bool) {
        (self.line@, self.remaining as int, self.had_error)
    }

    pub open spec fn wf(self) -> bool {
        self.line@.len() <= MAX_SENTENCE
    }

    /// Nothing collected yet; the first thing to do is to query.
    pub fn new() -> (r: GnssReader)
        ensures
            r.wf(),
            r.held() == held_at_first(),
    {
        GnssReader { line: Vec::new(), remaining: 0, had_error: false }
    }

    /// Takes the answer to a query: the count register, or why the
    /// transfer failed. A failure is reported once, and so is its end.
    pub fn on_count(&mut self, count: Result<[u8; 2], BusFault>) -> (out: (
        GnssAction,
        Option<GnssNotice>,
    ))
        ensures
            final(self).held() == after_answer(old(self).held(), count),
            out.0 == after_query(count),
            out.1 == notice_of(old(self).had_error, count),
    {
        let had_error: bool = self.had_error;
        match count {
            Ok(c) => {
                let n: usize = bytes_available(c);
                self.had_error = false;
                self.remaining = n;
                let notice: Option<GnssNotice> = if had_error {
                    Some(GnssNotice::Responding)
                } else {
                    None
                };
                if n == 0 {
                    (GnssAction::QueryAfter(POLL_INTERVAL_MS), notice)
                } else {
                    (GnssAction::Read(if n < CHUNK { n } else { CHUNK }), notice)
                }
            },
            Err(fault) => {
                self.had_error = true;
                self.remaining = 0;
                let notice: Option<GnssNotice> = if had_error {
                    None
                } else {
                    Some(GnssNotice::Failing(fault))
                };
                (GnssAction::QueryAfter(RETRY_INTERVAL_MS), notice)
            },
        }
    }

    /// Collects one byte; a newline hands out the line that it ends.
    fn push(&mut self, b: u8) -> (ended: Option<Vec<u8>>)
        requires
            old(self).wf(),
        ensures
            final(self).wf(),
            final(self).line@ == line_after(old(self).line@, b),
            final(self).remaining == old(self).remaining,
            final(self).had_error == old(self).had_error,
            match ended {
                Some(l) => b == 0x0A && l@ == line_with(old(self).line@, b),
                None => b != 0x0A,
            },
    {
        if b == 0xFF {
            return None;
        }
        if b == 0x24 {
            self.line.clear();
        }
        if self.line.len() < MAX_SENTENCE {
            self.line.push(b);
        }
        assert(self.line@ =~= line_with(old(self).line@, b));
        if b == 0x0A {
            let mut ended: Vec<u8> = Vec::new();
            ended.append(&mut self.line);
            assert(ended@ =~= line_with(old(self).line@, b));
            Some(ended)
        } else {
            None
        }
    }

    /// Collects a run of bytes and returns the sentences that it completes.
    pub fn feed(&mut self, data: &[u8]) -> (out: Vec<String>)
        requires
            old(self).wf(),
        ensures
            final(self).wf(),
            final(self).line@ == line_after_all(old(self).line@, data@),
            final(self).remaining == old(self).remaining,
            final(self).had_error == old(self).had_error,
            string_bytes(out@) == payloads(lines_ended(old(self).line@, data@)),
    {
        let mut out: Vec<String> = Vec::new();
        let mut i: usize = 0;
        let ghost start = self.line@;
        assert(data@.take(0) =~= Seq::empty());
        assert(string_bytes(out@) =~= Seq::empty());
        while i < data.len()
            invariant
                i <= data@.len(),
                self.wf(),
                start == old(self).line@,
                self.line@ == line_after_all(start, data@.take(i as int)),
                self.remaining == old(self).remaining,
                self.had_error == old(self).had_error,
                string_bytes(out@) =~= payloads(lines_ended(start, data@.take(i as int))),
            decreases data@.len() - i,
        {
            assert(data@.take(i + 1).drop_last() =~= data@.take(i as int));
            let ghost lines = lines_ended(start, data@.take(i as int));
            let ghost more = lines_ended(start, data@.take(i + 1));
            match self.push(data[i]) {
                Some(l) => {
                    assert(more.drop_last() =~= lines);
                    match checked_sentence(l.as_slice()) {
                        Some(s) => {
                            let ghost prev = string_bytes(out@);
                            out.push(s.to_owned());
                            assert(string_bytes(out@) =~= prev.push(s.spec_bytes()));
                        },
                        None => {},
                    }
                },
                None => {},
            }
            i = i + 1;
        }
        assert(data@.take(i as int) =~= data@);
        out
    }

    /// Takes the answer to a read: the bytes asked for, or `None` when the
    /// transfer failed, which gives up the rest of the burst.
    pub fn on_data(&mut self, data: Option<&[u8]>) -> (out: (GnssAction, Vec<String>))
        requires
            old(self).wf(),
            data matches Some(d) ==> d@.len() <= old(self).remaining,
        ensures
            final(self).wf(),
            ({
                let bytes = match data {
                    Some(d) => Some(d@),
                    None => None,
                };
                &&& final(self).held() == after_read(old(self).held(), bytes)
                &&& string_bytes(out.1@) == sentences_in(old(self).held(), bytes)
                &&& out.0 == next_read(final(self).remaining as int, bytes)
            }),
    {
        match data {
            Some(d) => {
                let sentences: Vec<String> = self.feed(d);
                self.remaining = self.remaining - d.len();
                let left: usize = self.remaining;
                if left == 0 {
                    (GnssAction::Query, sentences)
                } else {
                    (GnssAction::Read(if left < CHUNK { left } else { CHUNK }), sentences)
                }
            },
            None => {
                self.remaining = 0;
                let none: Vec<String> = Vec::new();
                assert(string_bytes(none@) =~= Seq::<Seq<u8>>::empty());
                (GnssAction::Query, none)
            },
        }
    }
}

/// Bytes may arrive in any pieces: feeding two runs one behind the other is
/// feeding them at once.
pub proof fn law_pieces_do_not_matter(line: Seq<u8>, a: Seq<u8>, b: Seq<u8>)
    ensures
        line_after_all(line, a + b) == line_after_all(line_after_all(line, a), b),
        lines_ended(line, a + b) == lines_ended(line, a) + lines_ended(line_after_all(line, a), b),
    decreases b.len(),
{
    if b.len() == 0 {
        assert(a + b =~= a);
        assert(lines_ended(line, a) + Seq::<Seq<u8>>::empty() =~= lines_ended(line, a));
    } else {
        law_pieces_do_not_matter(line, a, b.drop_last());
        assert((a + b).drop_last() =~= a + b.drop_last());
        assert(lines_ended(line, a + b) =~= lines_ended(line, a) + lines_ended(
            line_after_all(line, a),
            b,
        ));
    }
}

/// The filler byte of an empty stream leaves no trace, wherever it turns up.
pub proof fn law_filler_leaves_no_trace(line: Seq<u8>, a: Seq<u8>, b: Seq<u8>)
    ensures
        line_after_all(line, a + seq![0xFFu8] + b) == line_after_all(line, a + b),
        lines_ended(line, a + seq![0xFFu8] + b) == lines_ended(line, a + b),
{
    let filled = a + seq![0xFFu8];
    assert(filled.drop_last() =~= a);
    law_pieces_do_not_matter(line, filled, b);
    law_pieces_do_not_matter(line, a, b);
}

/// A transfer that fails costs nothing of what was collected: a line whose
/// bytes come in two reads, with a failed read and a query between them, ends
/// as if they had come at once. The rest of the failed burst is given up, and
/// the receiver is asked anew at once. A reader starts with nothing, and tells
/// of the first failure.
pub proof fn law_failed_read_keeps_the_line(
    held: (Seq<u8>, int, bool),
    a: Seq<u8>,
    b: Seq<u8>,
    count: Result<[u8; 2], BusFault>,
    left: int,
)
    ensures
        ({
            let failed = after_read(after_read(held, Some(a)), None);
            let asked = after_answer(failed, count);
            &&& failed.1 == 0 && failed.2 == held.2
            &&& asked.2 <==> count is Err
            &&& after_read(asked, Some(b)).0 == after_read(held, Some(a + b)).0
            &&& sentences_in(asked, Some(b)) == sentences_in(
                (line_after_all(held.0, a), left, false),
                Some(b),
            )
            &&& sentences_in(held, None) == Seq::<Seq<u8>>::empty()
            &&& after_read(held, Some(a)).1 + a.len() == held.1
        }),
        held_at_first().0.len() == 0 && held_at_first().1 == 0,
        count is Err ==> notice_of(held_at_first().2, count) is Some,
        count is Ok ==> notice_of(held_at_first().2, count) is None,
        next_read(left, None) == GnssAction::Query,
        next_read(0, Some(a)) == GnssAction::Query,
        left > 0 ==> next_read(left, Some(a)) == GnssAction::Read(
            (if left < 64 {
                left
            } else {
                64
            }) as usize,
        ),
{
    law_pieces_do_not_matter(held.0, a, b);
}

/// The upper-case hexadecimal digit worth `n`.
pub open spec fn hex_digit(n: u8) -> u8 {
    if n < 10 {
        (0x30 + n) as u8
    } else {
        (0x41 + n - 10) as u8
    }
}

/// A payload as the receiver frames it: `$payload*hh\r\n`.
pub open spec fn framed(payload: Seq<u8>) -> Seq<u8> {
    seq![0x24u8] + payload + checksum_tail(xor_of(payload))
}

/// `*hh\r\n`.
pub open spec fn checksum_tail(sum: u8) -> Seq<u8> {
    seq![0x2Au8, hex_digit((sum / 16) as u8), hex_digit((sum % 16) as u8), 0x0Du8, 0x0Au8]
}

/// A line `$payload*hh\r\n` passes exactly when `hh` is the checksum of a
/// payload that is text.
proof fn lemma_framed_line(payload: Seq<u8>, sum: u8)
    ensures
        payload_of(seq![0x24u8] + payload + checksum_tail(sum)) == (if sum == xor_of(payload)
            && vstd::utf8::valid_utf8(payload) {
            Some(payload)
        } else {
            None
        }),
{
    let raw = seq![0x24u8] + payload + checksum_tail(sum);
    let hi = hex_digit((sum / 16) as u8);
    let lo = hex_digit((sum % 16) as u8);
    let body = payload + seq![0x2Au8, hi, lo];
    assert(raw.skip(1) =~= payload + checksum_tail(sum));
    assert(without_line_end(raw.skip(1))->Some_0 =~= body);
    lemma_last_position_is(body, 0x2A, payload.len() as int);
    assert(body.take(payload.len() as int) =~= payload);
    let hex = body.skip(payload.len() as int + 1);
    assert(hex =~= seq![hi, lo]);
    assert(digit_value(hi) == sum / 16 && digit_value(lo) == sum % 16);
    assert(is_number(hex, 16));
    assert(unsigned_part(hex) == hex);
    assert(hex.drop_last() =~= seq![hi]);
    assert(seq![hi].drop_last() =~= Seq::<u8>::empty());
    reveal_with_fuel(number_value, 3);
    assert(number_value(hex, 16) == sum);
    assert(unsigned(hex, 16, 0xFF) == Some(sum as nat));
}

/// A hexadecimal digit worth `n`, in either case.
pub open spec fn is_hex_digit(c: u8, n: int) -> bool {
    ||| 0 <= n <= 9 && c == 0x30 + n
    ||| 10 <= n <= 15 && (c == 0x41 + n - 10 || c == 0x61 + n - 10)
}

/// Between `$` and the line ending, what stands before the last star is taken
/// for its checksum: two hexadecimal digits of either case, behind which the
/// line ends with `\r\n` or with `\n` alone. Two characters that are not
/// such digits take nothing.
pub proof fn law_line_is_taken_for_its_checksum(payload: Seq<u8>, hi: u8, lo: u8)
    ensures
        forall|h: int, l: int|
            #![trigger is_hex_digit(hi, h), is_hex_digit(lo, l)]
            is_hex_digit(hi, h) && is_hex_digit(lo, l) ==> {
                let line = seq![0x24u8] + payload + seq![0x2Au8, hi, lo];
                let taken = if 16 * h + l == xor_of(payload) && vstd::utf8::valid_utf8(payload) {
                    Some(payload)
                } else {
                    None
                };
                payload_of(line + seq![0x0Du8, 0x0Au8]) == taken && payload_of(
                    line + seq![0x0Au8],
                ) == taken
            },
        hi != 0x2B && hi != 0x2A && lo != 0x2A && ((forall|h: int| !is_hex_digit(hi, h)) || (
        forall|l: int| !is_hex_digit(lo, l))) ==> payload_of(
            seq![0x24u8] + payload + seq![0x2Au8, hi, lo, 0x0Du8, 0x0Au8],
        ) is None,
{
    let line = seq![0x24u8] + payload + seq![0x2Au8, hi, lo];
    let full = line + seq![0x0Du8, 0x0Au8];
    let bare = line + seq![0x0Au8];
    let body = payload + seq![0x2Au8, hi, lo];
    let hex = seq![hi, lo];
    assert(full =~= seq![0x24u8] + payload + seq![0x2Au8, hi, lo, 0x0Du8, 0x0Au8]);
    assert(full.skip(1) =~= body + seq![0x0Du8, 0x0Au8]);
    assert(bare.skip(1) =~= body + seq![0x0Au8]);
    assert((body + seq![0x0Du8, 0x0Au8]).take(body.len() as int) =~= body);
    assert((body + seq![0x0Au8]).drop_last() =~= body);
    assert(body.take(payload.len() as int) =~= payload);
    assert(body.skip(payload.len() as int + 1) =~= hex);
    assert(hex.drop_last() =~= seq![hi]);
    assert(seq![hi].drop_last() =~= Seq::<u8>::empty());
    reveal_with_fuel(number_value, 3);
    assert forall|h: int, l: int|
        #![trigger is_hex_digit(hi, h), is_hex_digit(lo, l)]
        is_hex_digit(hi, h) && is_hex_digit(lo, l) implies {
        let taken = if 16 * h + l == xor_of(payload) && vstd::utf8::valid_utf8(payload) {
            Some(payload)
        } else {
            None
        };
        payload_of(full) == taken && payload_of(bare) == taken
    } by {
        lemma_last_position_is(body, 0x2A, payload.len() as int);
        assert(is_number(hex, 16));
        assert(unsigned_part(hex) == hex);
        assert(number_value(hex, 16) == 16 * h + l);
        assert(unsigned(hex, 16, 0xFF) == Some((16 * h + l) as nat));
    }
    if hi != 0x2B && hi != 0x2A && lo != 0x2A && ((forall|h: int| !is_hex_digit(hi, h)) || (
    forall|l: int| !is_hex_digit(lo, l))) {
        lemma_last_position_is(body, 0x2A, payload.len() as int);
        let h = digit_value(hi);
        let l = digit_value(lo);
        assert(!is_hex_digit(hi, h as int) || !is_hex_digit(lo, l as int));
        assert(hex[0] == hi && hex[1] == lo);
        assert(!is_number(hex, 16));
    }
}

/// A line that does not start with `$`, does not end with `\n` or holds no
/// star says nothing.
pub proof fn law_unframed_line_says_nothing(raw: Seq<u8>)
    requires
        raw.len() == 0 || raw[0] != 0x24 || raw.last() != 0x0A || lacks(raw, 0x2A),
    ensures
        payload_of(raw) is None,
{
    if raw.len() > 0 && raw[0] == 0x24 {
        match without_line_end(raw.skip(1)) {
            Some(body) => {
                assert(raw.skip(1).last() == raw.last());
                assert forall|i: int| 0 <= i < body.len() implies body[i] != 0x2A by {
                    assert(body[i] == raw[i + 1]);
                }
                lemma_last_position_is(body, 0x2A, -1);
            },
            None => {},
        }
    }
}

/// A byte that is collected as it comes.
pub open spec fn is_plain(b: u8) -> bool {
    b != 0xFF && b != 0x24 && b != 0x0A
}

/// Plain bytes pile up behind what is collected, as far as there is room.
proof fn lemma_plain_run(line: Seq<u8>, data: Seq<u8>)
    requires
        forall|i: int| 0 <= i < data.len() ==> is_plain(#[trigger] data[i]),
        line.len() + data.len() <= MAX_SENTENCE,
    ensures
        line_after_all(line, data) == line + data,
        lines_ended(line, data) == Seq::<Seq<u8>>::empty(),
    decreases data.len(),
{
    if data.len() == 0 {
        assert(line + data =~= line);
    } else {
        let before = data.drop_last();
        lemma_plain_run(line, before);
        assert(is_plain(data[data.len() - 1]));
        assert((line + before).push(data.last()) =~= line + data);
    }
}

/// Whatever was collected before, a framed sentence comes out as its payload,
/// and nothing of it is left behind. The payload is text of at most 96
/// bytes with its frame, without the characters that start and
/// end a line.
pub proof fn law_framed_sentence_comes_out(line: Seq<u8>, payload: Seq<u8>)
    requires
        vstd::utf8::valid_utf8(payload),
        forall|i: int| 0 <= i < payload.len() ==> is_plain(#[trigger] payload[i]),
        framed(payload).len() <= 96,
    ensures
        payloads(lines_ended(line, framed(payload))) == seq![payload],
        line_after_all(line, framed(payload)) == Seq::<u8>::empty(),
{
    let all = framed(payload);
    let sum = xor_of(payload);
    let inner = payload + checksum_tail(sum).drop_last();
    let head = seq![0x24u8];
    assert(all.drop_last() =~= head + inner);
    assert(head.drop_last() =~= Seq::<u8>::empty());
    reveal_with_fuel(line_after_all, 2);
    reveal_with_fuel(lines_ended, 2);
    assert(line_after_all(line, head) == head);
    assert(lines_ended(line, head) =~= Seq::<Seq<u8>>::empty());
    assert forall|i: int| 0 <= i < inner.len() implies is_plain(#[trigger] inner[i]) by {
        if i < payload.len() {
            assert(inner[i] == payload[i]);
        } else {
            assert(inner[i] == checksum_tail(sum)[i - payload.len()]);
        }
    }
    lemma_plain_run(head, inner);
    law_pieces_do_not_matter(line, head, inner);
    assert(all =~= (head + inner).push(0x0A));
    assert(line_with(head + inner, 0x0A) =~= all);
    assert(lines_ended(line, all.drop_last()) =~= Seq::<Seq<u8>>::empty());
    assert(lines_ended(line, all) =~= seq![all]);
    lemma_framed_line(payload, sum);
    assert(seq![all].drop_last() =~= Seq::<Seq<u8>>::empty());
    reveal_with_fuel(payloads, 2);
    assert(payloads(seq![all]) =~= seq![payload]);
}

proof fn lemma_xor_update(s: Seq<u8>, i: int, b: u8)
    requires
        0 <= i < s.len(),
    ensures
        xor_of(s.update(i, b)) == xor_of(s) ^ s[i] ^ b,
    decreases s.len(),
{
    let t = s.update(i, b);
    if i == s.len() - 1 {
        assert(t.drop_last() =~= s.drop_last());
        let x = xor_of(s.drop_last());
        let c = s[i];
        assert(x ^ b == x ^ c ^ c ^ b) by (bit_vector);
    } else {
        lemma_xor_update(s.drop_last(), i, b);
        assert(t.drop_last() =~= s.drop_last().update(i, b));
        let x = xor_of(s.drop_last());
        let c = s[i];
        let l = s.last();
        assert(x ^ c ^ b ^ l == x ^ l ^ c ^ b) by (bit_vector);
    }
}

/// A sentence in which one byte of the payload was changed on the way never
/// passes.
pub proof fn law_changed_byte_is_caught(payload: Seq<u8>, i: int, b: u8)
    requires
        0 <= i < payload.len(),
        b != payload[i],
    ensures
        payload_of(framed(payload).update(1 + i, b)) is None,
{
    let sum = xor_of(payload);
    let bad = payload.update(i, b);
    assert(framed(payload).update(1 + i, b) =~= seq![0x24u8] + bad + checksum_tail(sum));
    lemma_framed_line(bad, sum);
    lemma_xor_update(payload, i, b);
    let c = payload[i];
    assert(b != c ==> sum ^ c ^ b != sum) by (bit_vector);
}

/// The sizes of the reads that a burst of `remaining` bytes takes.
pub open spec fn burst_reads(remaining: int) -> Seq<int>
    decreases remaining,
{
    if remaining <= 0 {
        Seq::empty()
    } else {
        seq![read_size(remaining)] + burst_reads(remaining - read_size(remaining))
    }
}

/// All the reads of a burst together.
pub open spec fn total_read(sizes: Seq<int>) -> int
    decreases sizes.len(),
{
    if sizes.len() == 0 {
        0
    } else {
        sizes[0] + total_read(sizes.drop_first())
    }
}

/// A burst is read to its end, and not beyond: the reads add up to it, there
/// are as many as chunks fit in it, and none asks for nothing or for more than
/// 64 bytes.
pub proof fn law_reads_drain_the_burst(remaining: int)
    requires
        remaining >= 0,
    ensures
        total_read(burst_reads(remaining)) == remaining,
        burst_reads(remaining).len() == (remaining + 63) / 64,
        forall|i: int|
            0 <= i < burst_reads(remaining).len() ==> 1 <= #[trigger] burst_reads(remaining)[i]
                <= 64,
    decreases remaining,
{
    if remaining > 0 {
        let left = remaining - read_size(remaining);
        law_reads_drain_the_burst(left);
        let sizes = burst_reads(remaining);
        assert(sizes.drop_first() =~= burst_reads(left));
        assert forall|i: int| 0 <= i < sizes.len() implies 1 <= #[trigger] sizes[i] <= CHUNK by {
            if i > 0 {
                assert(sizes[i] == burst_reads(left)[i - 1]);
            }
        }
    }
}

/// A line that is too long for the buffer is lost, whole: nothing comes out of
/// it, and nothing of it is left behind.
pub proof fn law_overlong_line_is_lost(line: Seq<u8>, body: Seq<u8>)
    requires
        forall|i: int| 0 <= i < body.len() ==> is_plain(#[trigger] body[i]),
        body.len() >= 95,
    ensures
        ({
            let all = seq![0x24u8] + body + seq![0x0Au8];
            &&& all.len() > 96
            &&& payloads(lines_ended(line, all)) == Seq::<Seq<u8>>::empty()
            &&& line_after_all(line, all) == Seq::<u8>::empty()
        }),
{
    let head = seq![0x24u8];
    let start = head + body;
    let all = start + seq![0x0Au8];
    lemma_full_line(line, body);
    assert(all.drop_last() =~= start);
    let kept = line_after_all(line, start);
    let ended = line_with(kept, 0x0A);
    assert(ended == kept);
    assert(ended.last() == body[94]);
    assert(is_plain(body[94]));
    assert(ended.skip(1).last() == ended.last());
    assert(payload_of(ended) is None);
    assert(lines_ended(line, all) =~= seq![ended]);
    assert(seq![ended].drop_last() =~= Seq::<Seq<u8>>::empty());
    reveal_with_fuel(payloads, 2);
}

proof fn lemma_full_line(line: Seq<u8>, body: Seq<u8>)
    requires
        forall|i: int| 0 <= i < body.len() ==> is_plain(#[trigger] body[i]),
        body.len() >= 95,
    ensures
        line_after_all(line, seq![0x24u8] + body) == seq![0x24u8] + body.take(95),
        lines_ended(line, seq![0x24u8] + body) == Seq::<Seq<u8>>::empty(),
    decreases body.len(),
{
    let head = seq![0x24u8];
    let all = head + body;
    if body.len() == 95 {
        assert(head.drop_last() =~= Seq::<u8>::empty());
        reveal_with_fuel(line_after_all, 2);
        reveal_with_fuel(lines_ended, 2);
        assert(line_after_all(line, head) == head);
        assert(lines_ended(line, head) =~= Seq::<Seq<u8>>::empty());
        lemma_plain_run(head, body);
        law_pieces_do_not_matter(line, head, body);
        assert(body.take(95) =~= body);
        assert(lines_ended(line, all) =~= Seq::<Seq<u8>>::empty());
    } else {
        let before = body.drop_last();
        assert forall|i: int| 0 <= i < before.len() implies is_plain(#[trigger] before[i]) by {
            assert(before[i] == body[i]);
        }
        lemma_full_line(line, before);
        assert(all.drop_last() =~= head + before);
        assert(is_plain(body[body.len() - 1]));
        assert(before.take(95) =~= body.take(95));
    }
}

/// The receiver is asked again after a quarter of a second when it failed, and
/// after a tenth when it has nothing, which it also says while it boots; what
/// it has is read, in pieces of at most 64 bytes.
pub proof fn law_answers_are_followed_up(count: [u8; 2], fault: BusFault, left: int)
    requires
        left >= 0,
    ensures
        ({
            let n = 256 * count[0] + count[1];
            let action = after_query(Ok::<[u8; 2], BusFault>(count));
            &&& n == 0 || n == 0xFFFF ==> action == GnssAction::QueryAfter(100) && burst_of(
                Ok::<[u8; 2], BusFault>(count),
            ) == 0
            &&& 0 < n < 0xFFFF ==> action == GnssAction::Read(
                (if n < 64 {
                    n
                } else {
                    64
                }) as usize,
            ) && burst_of(Ok::<[u8; 2], BusFault>(count)) == n
        }),
        after_query(Err::<[u8; 2], BusFault>(fault)) == GnssAction::QueryAfter(250),
        burst_of(Err::<[u8; 2], BusFault>(fault)) == 0,
        after_data(left) == GnssAction::Query <==> left == 0,
        0 < left < 64 ==> after_data(left) == GnssAction::Read(left as usize),
        left >= 64 ==> after_data(left) == GnssAction::Read(64),
{
}

/// A failure is told when it begins, with its cause, and its end is told once;
/// in between and otherwise nothing is.
pub proof fn law_failures_are_told_once(had_error: bool, count: [u8; 2], fault: BusFault)
    ensures
        notice_of(false, Err::<[u8; 2], BusFault>(fault)) == Some(GnssNotice::Failing(fault)),
        notice_of(true, Err::<[u8; 2], BusFault>(fault)) is None,
        notice_of(true, Ok::<[u8; 2], BusFault>(count)) == Some(GnssNotice::Responding),
        notice_of(false, Ok::<[u8; 2], BusFault>(count)) is None,
{
}

/// A checksum takes every byte once: the order does not matter, and a byte
/// twice is as none.
pub proof fn law_checksum_is_the_exclusive_or(a: Seq<u8>, b: Seq<u8>, x: u8)
    ensures
        xor_of(Seq::empty()) == 0,
        xor_of(a.push(x)) == xor_of(a) ^ x,
        xor_of(a + b) == xor_of(a) ^ xor_of(b),
        xor_of(a + b) == xor_of(b + a),
    decreases b.len(),
{
    let s = xor_of(a);
    assert(a.push(x).drop_last() =~= a);
    lemma_xor_of_two(a, b);
    lemma_xor_of_two(b, a);
    let t = xor_of(b);
    assert(s ^ t == t ^ s) by (bit_vector);
}

proof fn lemma_xor_of_two(a: Seq<u8>, b: Seq<u8>)
    ensures
        xor_of(a + b) == xor_of(a) ^ xor_of(b),
    decreases b.len(),
{
    let s = xor_of(a);
    if b.len() == 0 {
        assert(a + b =~= a);
        assert(s ^ 0 == s) by (bit_vector);
    } else {
        lemma_xor_of_two(a, b.drop_last());
        assert((a + b).drop_last() =~= a + b.drop_last());
        let t = xor_of(b.drop_last());
        let l = b.last();
        assert((s ^ t) ^ l == s ^ (t ^ l)) by (bit_vector);
    }
}

} // verus!
