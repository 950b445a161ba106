//! The host's side: polling the board and listening to its stream.

use vstd::prelude::*;
use vstd::string::*;
use nng_core::Message;
use crate::message::{body, message_body, message_header, message_of};
use crate::telemetry::{ends_with, starts_with};
use crate::text::{
    dec, law_number_reads_back, law_only_digits_make_a_number, law_written_numbers_differ,
    parse_unsigned, pow10, push_dec, unsigned, wide,
};
use crate::wire::{
    DecodeError, Frame, FrameText, decoded, error_text, frame_bytes, frame_line,
    law_decode_of_encode,
};

verus! {

/// What a command-line argument says: the default when it is not given, else
/// the number up to `max` that it spells.
pub open spec fn argument_of(arg: Option<Seq<u8>>, default: u64, max: u64) -> Option<u64> {
    match arg {
        None => Some(default),
        Some(s) => match unsigned(s, 10, max as nat) {
            Some(n) => Some(n as u64),
            None => None,
        },
    }
}

/// What is said of an argument that is not such a number.
pub open spec fn argument_error(name: Seq<char>) -> Seq<char> {
    name + " must be a number"@
}

/// Reads a command-line argument. One that is not a number up to `max` is an
/// error, which says what `name` must be.
pub fn parse(arg: Option<&str>, default: u64, max: u64, name: &str) -> (out: Result<u64, String>)
    ensures
        match argument_of(
            match arg {
                Some(s) => Some(s.spec_bytes()),
                None => None,
            },
            default,
            max,
        ) {
            Some(n) => out == Ok::<u64, String>(n),
            None => out is Err && out->Err_0@ == argument_error(name@),
        },
{
    match arg {
        None => Ok(default),
        Some(s) => match parse_unsigned(s.as_bytes(), 10, max) {
            Some(n) => Ok(n),
            None => {
                let mut e: String = String::new();
                e.append(name);
                e.append(" must be a number");
                assert(e@ =~= name@ + " must be a number"@);
                Err(e)
            },
        },
    }
}

/// The request that polls the board. The board does not interpret it.
pub fn telemetry_request() -> (m: Message)
    ensures
        message_body(m) == "telemetry".spec_bytes(),
        message_header(m) == Seq::<u8>::empty(),
{
    message_of("telemetry".as_bytes())
}

/// The text of request `i` of `count`: the payload, numbered when there is more
/// than one request.
pub open spec fn request_text(payload: Seq<char>, count: u64, i: u64) -> Seq<char> {
    if count == 1 {
        payload
    } else {
        payload + " #"@ + dec(i as nat)
    }
}

/// Request `i` of `count`.
pub fn numbered_request(payload: &str, count: u64, i: u64) -> (m: Message)
    ensures
        message_body(m) == vstd::utf8::encode_utf8(request_text(payload@, count, i)),
        message_header(m) == Seq::<u8>::empty(),
{
    let mut text: String = String::new();
    text.append(payload);
    if count != 1 {
        text.append(" #");
        push_dec(&mut text, i);
    }
    assert(text@ =~= request_text(payload@, count, i));
    message_of(text.as_str().as_bytes())
}

/// Milliseconds to wait before request `i`: requests are `interval_ms` apart.
pub open spec fn pause_of(i: u64, interval_ms: u64) -> u64 {
    if i > 0 {
        interval_ms
    } else {
        0
    }
}

pub fn pause_before(i: u64, interval_ms: u64) -> (ms: u64)
    ensures
        ms == pause_of(i, interval_ms),
{
    if i > 0 {
        interval_ms
    } else {
        0
    }
}

/// What is said of a message of `len` bytes that does not decode.
pub open spec fn undecodable(what: Seq<char>, e: DecodeError, len: nat) -> Seq<char> {
    "undecodable "@ + what + " ("@ + error_text(e) + "): "@ + dec(len) + " bytes"@
}

/// The frame in a message with this body, or the line that says why there is
/// none.
pub open spec fn read_of(body: Seq<u8>, what: Seq<char>) -> Result<Frame, Seq<char>> {
    match decoded(body) {
        Ok(f) => Ok(f),
        Err(e) => Err(undecodable(what, e, body.len())),
    }
}

/// The frame in a message, or the line that says why there is none.
fn read(m: &Message, what: &str) -> (out: Result<Frame, String>)
    ensures
        match read_of(message_body(*m), what@) {
            Ok(f) => out == Ok::<Frame, String>(f),
            Err(line) => out is Err && out->Err_0@ == line,
        },
{
    let data = body(m);
    match Frame::decode(data) {
        Ok(f) => Ok(f),
        Err(e) => {
            let mut line: String = String::new();
            line.append("undecodable ");
            line.append(what);
            line.append(" (");
            line.append(e.message().as_str());
            line.append("): ");
            push_dec(&mut line, data.len() as u64);
            line.append(" bytes");
            assert(line@ =~= undecodable(what@, e, message_body(*m).len()));
            Err(line)
        },
    }
}

/// The frame that the board replied with, or the line that says why there is
/// none.
pub fn read_reply(reply: &Message) -> (out: Result<Frame, String>)
    ensures
        match read_of(message_body(*reply), "reply"@) {
            Ok(f) => out == Ok::<Frame, String>(f),
            Err(line) => out is Err && out->Err_0@ == line,
        },
{
    read(reply, "reply")
}

/// The line of a polled frame.
pub open spec fn polled_text(f: Frame, q: FrameText, rtt_ms: Seq<char>) -> Seq<char> {
    frame_line(f, q) + "  ["@ + rtt_ms + " ms]"@
}

/// The line of a polled frame; `rtt_ms` is the round trip with two decimals.
pub fn polled_line(f: &Frame, q: &FrameText, rtt_ms: &str) -> (out: String)
    ensures
        out@ == polled_text(*f, *q, rtt_ms@),
{
    let mut out: String = f.line(q);
    out.append("  [");
    out.append(rtt_ms);
    out.append(" ms]");
    assert(out@ =~= polled_text(*f, *q, rtt_ms@));
    out
}

/// The text that `String::from_utf8_lossy` makes of some bytes.
pub uninterp spec fn lossy_text(s: Seq<u8>) -> Seq<char>;

/// The text of some bytes, with stand-ins for what is not text.
///
/// Calls `String::from_utf8_lossy`. Valid UTF-8 comes back as it is.
#[verifier::external_body]
fn lossy(s: &[u8]) -> (out: String)
    ensures
        out@ == lossy_text(s@),
        vstd::utf8::valid_utf8(s@) ==> out@ == vstd::utf8::decode_utf8(s@),
{
    String::from_utf8_lossy(s).into_owned()
}

/// The line of a reply that is not a frame.
pub open spec fn reply_text(elapsed_ms: Seq<char>, body: Seq<u8>) -> Seq<char> {
    elapsed_ms + " ms  "@ + lossy_text(body)
}

/// The line of a reply that is not a frame; `elapsed_ms` is the round trip
/// with two decimals, right-aligned in five columns.
pub fn reply_line(elapsed_ms: &str, reply: &Message) -> (out: String)
    ensures
        out@ == reply_text(elapsed_ms@, message_body(*reply)),
        vstd::utf8::valid_utf8(message_body(*reply)) ==> out@ == elapsed_ms@ + " ms  "@
            + vstd::utf8::decode_utf8(message_body(*reply)),
{
    let mut out: String = String::new();
    out.append(elapsed_ms);
    out.append(" ms  ");
    let text: String = lossy(body(reply));
    out.append(text.as_str());
    assert(out@ =~= elapsed_ms@ + " ms  "@ + lossy_text(message_body(*reply)));
    out
}

/// A subscriber that stops after `count` messages.
#[derive(Clone, Copy, Debug, PartialEq, Eq, Structural)]
pub struct Subscriber {
    pub received: u64,
    pub count: u64,
    /// Uptime of the board in the last frame.
    pub last_uptime: Option<u64>,
}

/// Milliseconds between two frames by the board's own clock; nothing for the
/// first frame, zero when the clock started over.
pub open spec fn gap_of(last_uptime: Option<u64>, uptime: u64) -> Option<u64> {
    match last_uptime {
        Some(prev) => Some(
            if uptime > prev {
                (uptime - prev) as u64
            } else {
                0
            },
        ),
        None => None,
    }
}

/// A subscriber after a message with this body.
pub open spec fn after_message(s: Subscriber, body: Seq<u8>) -> Subscriber {
    Subscriber {
        received: (s.received + 1) as u64,
        last_uptime: match decoded(body) {
            Ok(f) => Some(f.uptime_ms),
            Err(_) => s.last_uptime,
        },
        ..s
    }
}

/// A subscriber for `count` messages, before the first.
pub open spec fn subscriber_for(count: u64) -> Subscriber {
    Subscriber { received: 0, count, last_uptime: None }
}

/// Whether a subscriber waits for another message.
pub open spec fn wanting(s: Subscriber) -> bool {
    s.received < s.count
}

/// A subscriber after messages with these bodies.
pub open spec fn after_messages(s: Subscriber, bodies: Seq<Seq<u8>>) -> Subscriber
    decreases bodies.len(),
{
    if bodies.len() == 0 {
        s
    } else {
        after_message(after_messages(s, bodies.drop_last()), bodies.last())
    }
}

/// What a subscriber tells of a message with this body: its frame and the gap
/// since the one before, or the line that says why it has none.
pub open spec fn told_of(s: Subscriber, body: Seq<u8>) -> Result<
    (Frame, Option<u64>),
    Seq<char>,
> {
    match read_of(body, "frame"@) {
        Ok(f) => Ok((f, gap_of(s.last_uptime, f.uptime_ms))),
        Err(line) => Err(line),
    }
}

impl Subscriber {
    pub fn new(count: u64) -> (s: Subscriber)
        ensures
            s == subscriber_for(count),
    {
        Subscriber { received: 0, count, last_uptime: None }
    }

    /// Whether to wait for another message.
    pub fn wants_more(&self) -> (b: bool)
        ensures
            b == wanting(*self),
    {
        self.received < self.count
    }

    /// Takes a message: its frame and the gap since the one before, or the line
    /// that says why it has none. Either way it counts.
    pub fn on_message(&mut self, m: &Message) -> (out: Result<(Frame, Option<u64>), String>)
        requires
            old(self).received < old(self).count,
        ensures
            *final(self) == after_message(*old(self), message_body(*m)),
            match told_of(*old(self), message_body(*m)) {
                Ok(told) => out == Ok::<(Frame, Option<u64>), String>(told),
                Err(line) => out is Err && out->Err_0@ == line,
            },
    {
        self.received = self.received + 1;
        match read(m, "frame") {
            Ok(f) => {
                let gap: Option<u64> = match self.last_uptime {
                    Some(prev) => Some(
                        if f.uptime_ms > prev {
                            f.uptime_ms - prev
                        } else {
                            0
                        },
                    ),
                    None => None,
                };
                self.last_uptime = Some(f.uptime_ms);
                Ok((f, gap))
            },
            Err(line) => Err(line),
        }
    }
}

/// The line of a streamed frame.
pub open spec fn streamed_text(f: Frame, q: FrameText, gap: Option<u64>) -> Seq<char> {
    match gap {
        Some(ms) => frame_line(f, q) + "  (+"@ + dec(ms as nat) + " ms)"@,
        None => frame_line(f, q),
    }
}

pub fn streamed_line(f: &Frame, q: &FrameText, gap: Option<u64>) -> (out: String)
    ensures
        out@ == streamed_text(*f, *q, gap),
{
    let mut out: String = f.line(q);
    if let Some(ms) = gap {
        out.append("  (+");
        push_dec(&mut out, ms);
        out.append(" ms)");
    }
    assert(out@ =~= streamed_text(*f, *q, gap));
    out
}

/// A dropped frame shows: the gap across it is the sum of the two gaps that
/// would have been seen.
pub proof fn law_dropped_frame_shows(first: u64, dropped: u64, last: u64)
    requires
        first <= dropped <= last,
    ensures
        gap_of(Some(first), last) == Some(
            (gap_of(Some(first), dropped).unwrap() + gap_of(Some(dropped), last).unwrap()) as u64,
        ),
{
}

/// An argument that is given decides, whatever the default: a number up to the
/// limit is taken, anything more or else is refused by its name. One that is
/// not given leaves the default.
pub proof fn law_given_argument_decides(
    n: nat,
    places: nat,
    s: Seq<u8>,
    default: u64,
    other: u64,
    max: u64,
    name: Seq<char>,
)
    requires
        places > 0,
        n < pow10(places),
    ensures
        argument_of(None, default, max) == Some(default),
        argument_of(Some(wide(n, places)), default, max) == (if n <= max {
            Some(n as u64)
        } else {
            None
        }),
        argument_of(Some(s), default, max) == argument_of(Some(s), other, max),
        starts_with(argument_error(name), name),
        ends_with(argument_error(name), " must be a number"@),
        argument_error(name).len() == name.len() + " must be a number"@.len(),
        argument_of(Some(s), default, max) is Some ==> s.len() > 0 && forall|i: int|
            1 <= i < s.len() ==> 0x30 <= #[trigger] s[i] <= 0x39,
{
    law_number_reads_back(n, places, max as nat);
    let e = argument_error(name);
    assert(e.take(name.len() as int) =~= name);
    assert(e.skip(e.len() - " must be a number"@.len()) =~= " must be a number"@);
    if unsigned(s, 10, max as nat) is Some {
        law_only_digits_make_a_number(s, max as nat);
    }
}

/// One request is its payload; of several, each is the payload with its own
/// number behind it.
pub proof fn law_requests_are_numbered(payload: Seq<char>, count: u64, i: u64, j: u64)
    ensures
        request_text(payload, 1, i) == payload,
        starts_with(request_text(payload, count, i), payload),
        count != 1 ==> ends_with(request_text(payload, count, i), " #"@ + dec(i as nat)),
        count != 1 && i != j ==> request_text(payload, count, i) != request_text(payload, count, j),
{
    reveal_strlit(" #");
    let a = request_text(payload, count, i);
    let b = request_text(payload, count, j);
    assert(a.take(payload.len() as int) =~= payload);
    if count != 1 {
        let tail = " #"@ + dec(i as nat);
        assert(a.skip(a.len() - tail.len()) =~= tail);
        if a == b {
            let k = payload.len() + 2;
            assert(a.skip(k as int) =~= dec(i as nat));
            assert(b.skip(k as int) =~= dec(j as nat));
            law_written_numbers_differ(i as nat, j as nat);
        }
    }
}

/// The first request goes out at once, and every other one interval after the
/// one before.
pub proof fn law_requests_are_an_interval_apart(i: u64, interval_ms: u64)
    ensures
        pause_of(0, interval_ms) == 0,
        i >= 1 ==> pause_of(i, interval_ms) == interval_ms,
{
}

/// What is said of a message that does not decode names what it was, why it was
/// refused and how long it was.
pub proof fn law_refusal_is_told(what: Seq<char>, e: DecodeError, len: nat)
    ensures
        starts_with(undecodable(what, e, len), "undecodable "@ + what + " ("@ + error_text(e)),
        ends_with(undecodable(what, e, len), "): "@ + dec(len) + " bytes"@),
        undecodable(what, e, len).len() == ("undecodable "@ + what + " ("@ + error_text(e)).len()
            + ("): "@ + dec(len) + " bytes"@).len(),
{
    let head = "undecodable "@ + what + " ("@ + error_text(e);
    let tail = "): "@ + dec(len) + " bytes"@;
    let all = undecodable(what, e, len);
    assert(all =~= head + tail);
    assert(all.take(head.len() as int) =~= head);
    assert(all.skip(all.len() - tail.len()) =~= tail);
}

/// The line of a frame comes first, whole; behind it stand the round trip of a
/// poll, or the gap in a stream where there is one.
pub proof fn law_line_comes_first(f: Frame, q: FrameText, rtt_ms: Seq<char>, ms: u64)
    ensures
        starts_with(polled_text(f, q, rtt_ms), frame_line(f, q)),
        polled_text(f, q, rtt_ms).skip(frame_line(f, q).len() as int) == "  ["@ + rtt_ms + " ms]"@,
        streamed_text(f, q, None) == frame_line(f, q),
        starts_with(streamed_text(f, q, Some(ms)), frame_line(f, q)),
        streamed_text(f, q, Some(ms)).skip(frame_line(f, q).len() as int) == "  (+"@ + dec(
            ms as nat,
        ) + " ms)"@,
{
    let l = frame_line(f, q);
    assert(polled_text(f, q, rtt_ms).take(l.len() as int) =~= l);
    assert(polled_text(f, q, rtt_ms).skip(l.len() as int) =~= "  ["@ + rtt_ms + " ms]"@);
    assert(streamed_text(f, q, Some(ms)).take(l.len() as int) =~= l);
    assert(streamed_text(f, q, Some(ms)).skip(l.len() as int) =~= "  (+"@ + dec(ms as nat)
        + " ms)"@);
}

/// Every frame that the board sends comes out as it was sent, with the time
/// since the frame before it by the board's own clock, whatever undecodable
/// message came between; such a message is told as one.
pub proof fn law_stream_tells_every_frame(
    s: Subscriber,
    first: Frame,
    junk: Seq<u8>,
    second: Frame,
    what: Seq<char>,
)
    requires
        decoded(junk) is Err,
        s.received + 2 < s.count,
        second.uptime_ms >= first.uptime_ms,
    ensures
        ({
            let s1 = after_message(s, frame_bytes(first));
            let s2 = after_message(s1, junk);
            &&& told_of(s, frame_bytes(first)) is Ok
            &&& told_of(s, frame_bytes(first))->Ok_0.0 == first
            &&& s.last_uptime is None ==> told_of(s, frame_bytes(first))->Ok_0.1 is None
            &&& told_of(s1, junk) == Err::<(Frame, Option<u64>), Seq<char>>(
                undecodable("frame"@, decoded(junk)->Err_0, junk.len()),
            )
            &&& told_of(s2, frame_bytes(second)) == Ok::<(Frame, Option<u64>), Seq<char>>(
                (second, Some((second.uptime_ms - first.uptime_ms) as u64)),
            )
            &&& s2.received == s.received + 2
        }),
        read_of(frame_bytes(first), what) == Ok::<Frame, Seq<char>>(first),
        read_of(junk, what) == Err::<Frame, Seq<char>>(
            undecodable(what, decoded(junk)->Err_0, junk.len()),
        ),
{
    let none = Seq::<u8>::empty();
    law_decode_of_encode(first, none);
    law_decode_of_encode(second, none);
    assert(frame_bytes(first) + none =~= frame_bytes(first));
    assert(frame_bytes(second) + none =~= frame_bytes(second));
}

/// A subscriber takes as many messages as it was started for, whatever they
/// hold, and the first frame of a stream has no gap.
pub proof fn law_subscriber_takes_its_count(count: u64, bodies: Seq<Seq<u8>>)
    requires
        bodies.len() <= count,
    ensures
        wanting(after_messages(subscriber_for(count), bodies)) <==> bodies.len() < count,
        after_messages(subscriber_for(count), bodies).received == bodies.len(),
        after_messages(subscriber_for(count), bodies).count == count,
        subscriber_for(count).last_uptime is None,
    decreases bodies.len(),
{
    if bodies.len() > 0 {
        law_subscriber_takes_its_count(count, bodies.drop_last());
    }
}

/// A reply that is not a frame is told by its round trip and its text.
pub proof fn law_reply_is_told(elapsed_ms: Seq<char>, body: Seq<u8>)
    ensures
        starts_with(reply_text(elapsed_ms, body), elapsed_ms + " ms  "@),
        ends_with(reply_text(elapsed_ms, body), lossy_text(body)),
        reply_text(elapsed_ms, body).len() == elapsed_ms.len() + 5 + lossy_text(body).len(),
{
    reveal_strlit(" ms  ");
    let head = elapsed_ms + " ms  "@;
    let all = reply_text(elapsed_ms, body);
    assert(all.take(head.len() as int) =~= head);
    assert(all.skip(all.len() - lossy_text(body).len()) =~= lossy_text(body));
}

/// The gap is what the board's clock moved on since the last frame that could
/// be read; there is none for the first.
pub proof fn law_gap_is_what_the_clock_moved(
    s: Subscriber,
    body: Seq<u8>,
    junk: Seq<u8>,
    prev: u64,
    uptime: u64,
)
    requires
        decoded(body) is Ok,
        decoded(junk) is Err,
        s.received < s.count,
    ensures
        gap_of(None, uptime) is None,
        uptime >= prev ==> prev + gap_of(Some(prev), uptime).unwrap() == uptime,
        uptime < prev ==> gap_of(Some(prev), uptime) == Some(0u64),
        after_message(s, body).last_uptime == Some(decoded(body)->Ok_0.uptime_ms),
        after_message(s, junk).last_uptime == s.last_uptime,
        after_message(s, body).received == s.received + 1,
        after_message(s, junk).received == s.received + 1,
        after_message(s, body).count == s.count && after_message(s, junk).count == s.count,
{
}

} // verus!
