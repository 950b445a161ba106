//! The board's telemetry on the wire, over two NNG sockets.
//!
//! * REP0 on [`REP_PORT`]: any request is answered with one frame, taken at
//!   the moment of the reply.
//! * PUB0 on [`PUB_PORT`]: the same frame is published [`PUBLISH_HZ`] times a
//!   second, for subscribers filtering on [`crate::wire::MAGIC`].

use vstd::prelude::*;
use vstd::string::*;
use nng_core::Message;
use crate::clock::{after, as_millis, from_hz, is_stale, period, stale, TICK_HZ};
use crate::gnss::{FixQuality, fix_of};
use crate::message::{body, message_body, message_header, message_of};
use crate::telemetry::{
    Telemetry, SummaryValues, ends_with, fixed_of, fixed_text, gnss_text, imu_text,
    law_summary_shows_the_state, no_bar, no_readings, position_text, starts_with, summary_left,
    summary_right, summary_text,
};
use crate::text::{dec, law_text_is_shown_as_it_is, shown, unsigned, utf8_or_note};
use crate::wire::{
    DecodeError, Frame, decoded, empty_frame, frame_bytes, law_decode_of_encode,
    law_frame_starts_with_topic, FLAG_GNSS_COURSE, FLAG_GNSS_FIX, FLAG_GNSS_STALE, FLAG_IMU,
    FLAG_IMU_STALE, MAGIC,
};

verus! {

/// Port the REP0 socket listens on.
pub const REP_PORT: u16 = 5555;

/// Port the PUB0 socket listens on.
pub const PUB_PORT: u16 = 5556;

/// Concurrent REP peers (one TCP socket each).
pub const REP_PIPES: usize = 2;

/// Concurrent PUB subscribers (one TCP socket each).
pub const PUB_PIPES: usize = 2;

/// Telemetry frames published per second.
pub const PUBLISH_HZ: u64 = 5;

/// Published frames from one log line to the next: ten seconds' worth.
pub const FRAMES_PER_NOTICE: u32 = 50;

/// Pause after a request that could not be received.
pub const RECEIVE_RETRY_MS: u64 = 100;

/// The physical quantities of the store's readings, in the units of a frame
/// and as the bit patterns that a frame carries. Those of a sensor that has
/// not reported are left out of the frame.
#[derive(Clone, Copy, Debug, PartialEq, Eq)]
pub struct Quantities {
    pub latitude_deg: u64,
    pub longitude_deg: u64,
    pub altitude_m: u32,
    pub speed_mps: u32,
    pub course_deg: u32,
    pub yaw_deg: u32,
    pub pitch_deg: u32,
    pub roll_deg: u32,
    pub accel_mss: [u32; 3],
}

/// The number of a fix quality in a frame.
pub open spec fn fix_code(fix: FixQuality) -> u8 {
    match fix {
        FixQuality::NoFix => 0,
        FixQuality::Gnss => 1,
        FixQuality::Dgnss => 2,
        FixQuality::Other(v) => v,
    }
}

/// Whether the store has a speed and a course.
pub open spec fn has_course(t: Telemetry) -> bool {
    t.rmc matches Some(r) && r.valid
}

/// A flag, if it is set.
pub open spec fn flag_if(set: bool, flag: u8) -> u8 {
    if set {
        flag
    } else {
        0
    }
}

/// The flags of a frame taken at `now`.
pub open spec fn flags_of(t: Telemetry, now: u64) -> u8 {
    flag_if(t.fixed(), FLAG_GNSS_FIX) | flag_if(is_stale(t.gnss_updated, now), FLAG_GNSS_STALE)
        | flag_if(has_course(t), FLAG_GNSS_COURSE) | flag_if(t.orientation is Some, FLAG_IMU)
        | flag_if(is_stale(t.imu_updated, now), FLAG_IMU_STALE)
}

/// The frame of the store's readings at `now`. What has not been reported is
/// zero.
pub open spec fn frame_of(t: Telemetry, now: u64, q: Quantities) -> Frame {
    Frame {
        uptime_ms: (now * 1000 / TICK_HZ as int) as u64,
        flags: flags_of(t, now),
        fix: match t.gga {
            Some(g) => fix_code(g.fix),
            None => 0,
        },
        satellites: match t.gga {
            Some(g) => g.satellites,
            None => 0,
        },
        imu_status: match t.orientation {
            Some(o) => o.status,
            None => 0,
        },
        latitude_deg: if t.fixed() {
            q.latitude_deg
        } else {
            0
        },
        longitude_deg: if t.fixed() {
            q.longitude_deg
        } else {
            0
        },
        altitude_m: if t.fixed() {
            q.altitude_m
        } else {
            0
        },
        speed_mps: if has_course(t) {
            q.speed_mps
        } else {
            0
        },
        course_deg: if has_course(t) {
            q.course_deg
        } else {
            0
        },
        yaw_deg: if t.orientation is Some {
            q.yaw_deg
        } else {
            0
        },
        pitch_deg: if t.orientation is Some {
            q.pitch_deg
        } else {
            0
        },
        roll_deg: if t.orientation is Some {
            q.roll_deg
        } else {
            0
        },
        accel_mss: if t.acceleration is Some {
            q.accel_mss
        } else {
            [0, 0, 0]
        },
    }
}

/// Whether the clock can tell the uptime at `now` in milliseconds.
pub open spec fn uptime_fits(now: u64) -> bool {
    now * 125 <= u64::MAX
}

/// Builds a wire frame from the store's readings at `now`.
pub fn frame(t: &Telemetry, now: u64, q: &Quantities) -> (f: Frame)
    requires
        t.stamped_by(now),
        uptime_fits(now),
    ensures
        f == frame_of(*t, now, *q),
{
    let mut f: Frame = Frame::default();
    f.uptime_ms = as_millis(now);
    let mut fix_flag: u8 = 0;
    let mut course_flag: u8 = 0;
    let mut imu_flag: u8 = 0;
    if let Some(g) = t.gga {
        f.satellites = g.satellites;
        f.fix = match g.fix {
            FixQuality::NoFix => 0,
            FixQuality::Gnss => 1,
            FixQuality::Dgnss => 2,
            FixQuality::Other(v) => v,
        };
        if g.fix != FixQuality::NoFix {
            fix_flag = FLAG_GNSS_FIX;
            f.latitude_deg = q.latitude_deg;
            f.longitude_deg = q.longitude_deg;
            f.altitude_m = q.altitude_m;
        }
    }
    let gnss_stale: u8 = if stale(t.gnss_updated, now) {
        FLAG_GNSS_STALE
    } else {
        0
    };
    if let Some(r) = t.rmc {
        if r.valid {
            course_flag = FLAG_GNSS_COURSE;
            f.speed_mps = q.speed_mps;
            f.course_deg = q.course_deg;
        }
    }
    if let Some(o) = t.orientation {
        imu_flag = FLAG_IMU;
        f.imu_status = o.status;
        f.yaw_deg = q.yaw_deg;
        f.pitch_deg = q.pitch_deg;
        f.roll_deg = q.roll_deg;
    }
    let imu_stale: u8 = if stale(t.imu_updated, now) {
        FLAG_IMU_STALE
    } else {
        0
    };
    if t.acceleration.is_some() {
        f.accel_mss = q.accel_mss;
    }
    f.flags = fix_flag | gnss_stale | course_flag | imu_flag | imu_stale;
    f
}

/// A frame as an NNG message. The topic leads the body, so that subscribers can
/// filter on it.
pub fn frame_message(t: &Telemetry, now: u64, q: &Quantities) -> (m: Message)
    requires
        t.stamped_by(now),
        uptime_fits(now),
    ensures
        message_body(m) == frame_bytes(frame_of(*t, now, *q)),
        message_header(m) == Seq::<u8>::empty(),
{
    message_of(&frame(t, now, q).encode())
}

/// What a request handler does next.
pub enum RepStep {
    /// Nothing was received: wait this many milliseconds, then receive again.
    Retry(u64),
    /// Log the request and send the reply.
    Answer { request: String, reply: Message },
}

/// How a request is logged.
pub open spec fn request_shown(request: Seq<u8>) -> Seq<char> {
    shown(request)
}

/// The body of the reply to a request.
pub open spec fn reply_to(request: Seq<u8>, t: Telemetry, now: u64, q: Quantities) -> Seq<u8> {
    frame_bytes(frame_of(t, now, q))
}

/// The body of what is published at a deadline, to so many subscribers.
pub open spec fn published_to(
    pipe_count: usize,
    t: Telemetry,
    now: u64,
    q: Quantities,
) -> Option<Seq<u8>> {
    if pipe_count == 0 {
        None
    } else {
        Some(frame_bytes(frame_of(t, now, q)))
    }
}

/// One round of a request handler, once it has received a request or failed to.
/// The request is logged but not otherwise interpreted: whatever it says, the
/// answer is the frame of the store's readings at `now`.
pub fn rep_step(request: Option<&Message>, t: &Telemetry, now: u64, q: &Quantities) -> (step:
    RepStep)
    requires
        t.stamped_by(now),
        uptime_fits(now),
    ensures
        match request {
            None => step == RepStep::Retry(RECEIVE_RETRY_MS),
            Some(r) => {
                &&& step is Answer
                &&& step->request@ == request_shown(message_body(*r))
                &&& message_body(step->reply) == reply_to(message_body(*r), *t, now, *q)
                &&& message_header(step->reply) == Seq::<u8>::empty()
            },
        },
{
    match request {
        None => RepStep::Retry(RECEIVE_RETRY_MS),
        Some(r) => {
            let mut request: String = String::new();
            request.append(utf8_or_note(body(r)));
            assert(request@ =~= shown(message_body(*r)));
            RepStep::Answer { request, reply: frame_message(t, now, q) }
        },
    }
}

/// The publisher: when it publishes next, and how many frames it has published.
#[derive(Clone, Copy, Debug, PartialEq, Eq, Structural)]
pub struct Publisher {
    /// The last deadline handed out, in ticks.
    pub ticker: u64,
    pub published: u32,
}

/// A publisher after one more deadline.
pub open spec fn ticked(p: Publisher) -> Publisher {
    Publisher { ticker: (p.ticker + period(PUBLISH_HZ as nat)) as u64, published: p.published }
}

/// A publisher after a frame went out, or did not, and whether to log the count.
pub open spec fn counted(p: Publisher, ok: bool) -> (Publisher, bool) {
    if ok {
        let n = (p.published + 1) as u32;
        (Publisher { published: n, ..p }, n % FRAMES_PER_NOTICE == 0)
    } else {
        (p, false)
    }
}

/// A publisher after `n` more deadlines.
pub open spec fn ticked_by(p: Publisher, n: nat) -> Publisher
    decreases n,
{
    if n == 0 {
        p
    } else {
        ticked(ticked_by(p, (n - 1) as nat))
    }
}

/// A publisher that starts `now`.
pub open spec fn publisher_at(now: u64) -> Publisher {
    Publisher { ticker: now, published: 0 }
}

impl Publisher {
    pub fn new(now: u64) -> (p: Publisher)
        ensures
            p == publisher_at(now),
    {
        Publisher { ticker: now, published: 0 }
    }

    /// The next deadline. Deadlines are a period apart, however late the frame
    /// before went out.
    pub fn next_tick(&mut self) -> (deadline: u64)
        requires
            old(self).ticker + period(PUBLISH_HZ as nat) <= u64::MAX,
        ensures
            *final(self) == ticked(*old(self)),
            deadline == final(self).ticker,
    {
        self.ticker = after(self.ticker, from_hz(PUBLISH_HZ));
        self.ticker
    }

    /// What to publish at a deadline: the frame of the store's readings at
    /// `now`, or nothing while nobody is listening.
    pub fn due(&self, pipe_count: usize, t: &Telemetry, now: u64, q: &Quantities) -> (out: Option<
        Message,
    >)
        requires
            t.stamped_by(now),
            uptime_fits(now),
        ensures
            out is Some <==> published_to(pipe_count, *t, now, *q) is Some,
            out matches Some(m) ==> {
                &&& published_to(pipe_count, *t, now, *q) == Some(message_body(m))
                &&& message_header(m) == Seq::<u8>::empty()
            },
    {
        if pipe_count == 0 {
            None
        } else {
            Some(frame_message(t, now, q))
        }
    }

    /// Counts a frame that went out; a frame that did not is not counted.
    /// Returns whether to log the count.
    pub fn on_published(&mut self, ok: bool) -> (notice: bool)
        requires
            ok ==> old(self).published < u32::MAX,
        ensures
            (*final(self), notice) == counted(*old(self), ok),
    {
        if !ok {
            return false;
        }
        self.published = self.published + 1;
        self.published % FRAMES_PER_NOTICE == 0
    }
}

/// The five flags do not disturb one another.
proof fn lemma_flags(fix: bool, gnss_stale: bool, course: bool, imu: bool, imu_stale: bool)
    ensures
        ({
            let flags = flag_if(fix, FLAG_GNSS_FIX) | flag_if(gnss_stale, FLAG_GNSS_STALE)
                | flag_if(course, FLAG_GNSS_COURSE) | flag_if(imu, FLAG_IMU) | flag_if(
                imu_stale,
                FLAG_IMU_STALE,
            );
            &&& (flags & FLAG_GNSS_FIX != 0) == fix
            &&& (flags & FLAG_GNSS_STALE != 0) == gnss_stale
            &&& (flags & FLAG_GNSS_COURSE != 0) == course
            &&& (flags & FLAG_IMU != 0) == imu
            &&& (flags & FLAG_IMU_STALE != 0) == imu_stale
        }),
{
    let a = flag_if(fix, 1);
    let b = flag_if(gnss_stale, 2);
    let c = flag_if(course, 16);
    let d = flag_if(imu, 4);
    let e = flag_if(imu_stale, 8);
    let flags = a | b | c | d | e;
    assert((flags & 1 != 0) == (a != 0) && (flags & 2 != 0) == (b != 0) && (flags & 16 != 0) == (c
        != 0) && (flags & 4 != 0) == (d != 0) && (flags & 8 != 0) == (e != 0)) by (bit_vector)
        requires
            flags == a | b | c | d | e,
            a == 0 || a == 1,
            b == 0 || b == 2,
            c == 0 || c == 16,
            d == 0 || d == 4,
            e == 0 || e == 8,
    ;
}

/// Each flag of a frame says what it is named for.
pub proof fn law_flags_tell_the_state(t: Telemetry, now: u64, q: Quantities)
    ensures
        ({
            let f = frame_of(t, now, q);
            &&& f.fix_flag() == t.fixed()
            &&& f.imu_flag() == (t.orientation is Some)
            &&& (f.flags & FLAG_GNSS_COURSE != 0) == has_course(t)
            &&& (f.flags & FLAG_GNSS_STALE != 0) == is_stale(t.gnss_updated, now)
            &&& (f.flags & FLAG_IMU_STALE != 0) == is_stale(t.imu_updated, now)
        }),
{
    lemma_flags(
        t.fixed(),
        is_stale(t.gnss_updated, now),
        has_course(t),
        t.orientation is Some,
        is_stale(t.imu_updated, now),
    );
}

/// Fields whose flag is clear are zero, not old data; so are those that no
/// sensor has reported.
pub proof fn law_clear_flag_means_zero(t: Telemetry, now: u64, q: Quantities)
    ensures
        ({
            let f = frame_of(t, now, q);
            &&& f.flags & FLAG_GNSS_FIX == 0 ==> f.fix == 0 && f.latitude_deg == 0
                && f.longitude_deg == 0 && f.altitude_m == 0
            &&& f.flags & FLAG_GNSS_COURSE == 0 ==> f.speed_mps == 0 && f.course_deg == 0
            &&& f.flags & FLAG_IMU == 0 ==> f.imu_status == 0 && f.yaw_deg == 0 && f.pitch_deg == 0
                && f.roll_deg == 0
            &&& t.acceleration is None ==> f.accel_mss == [0u32, 0u32, 0u32]
            &&& t.gga is None ==> f.satellites == 0
        }),
{
    law_flags_tell_the_state(t, now, q);
}

/// A board that has heard nothing yet sends the default frame, but for its
/// clock.
pub proof fn law_nothing_heard_is_the_default_frame(now: u64, q: Quantities)
    ensures
        ({
            let f = frame_of(no_readings(), now, q);
            f == (Frame { uptime_ms: f.uptime_ms, ..empty_frame() })
        }),
        empty_frame().uptime_ms == 0,
{
    let t = no_readings();
    law_flags_tell_the_state(t, now, q);
    assert(flags_of(t, now) == 0) by {
        assert(0u8 | 0u8 | 0u8 | 0u8 | 0u8 == 0u8) by (bit_vector);
    }
    assert(frame_of(t, now, q).accel_mss =~= empty_frame().accel_mss);
}

/// The wire carries the number that the receiver reported as its fix quality,
/// whatever it is, and flags a fix exactly when it is not zero.
pub proof fn law_fix_number_reaches_the_wire(
    field: Seq<u8>,
    n: nat,
    t: Telemetry,
    now: u64,
    q: Quantities,
)
    requires
        unsigned(field, 10, 0xFF) == Some(n),
        t.gga matches Some(g) && g.fix == fix_of(field),
    ensures
        ({
            let f = frame_of(t, now, q);
            &&& f.fix == n
            &&& f.satellites == t.gga.unwrap().satellites
            &&& f.fix_flag() <==> n != 0
            &&& n != 0 ==> f.latitude_deg == q.latitude_deg && f.longitude_deg == q.longitude_deg
                && f.altitude_m == q.altitude_m
        }),
{
    law_flags_tell_the_state(t, now, q);
}

/// The wire and the log never disagree: of one snapshot, the summary shows a
/// position, an orientation and the two stale marks exactly where the frame
/// sets their flags, and names the frame's satellites and calibration status.
pub proof fn law_frame_agrees_with_summary(t: Telemetry, now: u64, q: Quantities, v: SummaryValues)
    ensures
        ({
            let f = frame_of(t, now, q);
            let left = summary_left(t, now, v);
            let right = summary_right(t, now, v);
            &&& summary_text(t, now, v) == left + " | "@ + right
            &&& no_bar(left) && no_bar(right)
            &&& starts_with(left, "pos --"@) <==> !f.fix_flag()
            &&& ends_with(left, " [stale]"@) <==> f.flags & FLAG_GNSS_STALE != 0
            &&& starts_with(right, "yaw --"@) <==> !f.imu_flag()
            &&& ends_with(right, " [stale]"@) <==> f.flags & FLAG_IMU_STALE != 0
            &&& gnss_text(t.gga, v) == (if f.fix_flag() {
                position_text(t.gga.unwrap(), v)
            } else if t.gga is Some {
                "pos -- (no fix, "@ + dec(f.satellites as nat) + " sats)"@
            } else {
                "pos -- (no gnss data)"@
            })
            &&& imu_text(t.orientation, v) == (if f.imu_flag() {
                "yaw "@ + fixed_text(fixed_of(v.yaw, 1)) + " pitch "@ + fixed_text(
                    fixed_of(v.pitch, 1),
                ) + " roll "@ + fixed_text(fixed_of(v.roll, 1)) + " (imu "@ + dec(
                    f.imu_status as nat,
                ) + "/3)"@
            } else {
                "yaw -- pitch -- roll -- (no imu data)"@
            })
            &&& t.gga matches Some(g) ==> f.satellites == g.satellites && f.fix == fix_code(g.fix)
        }),
{
    law_flags_tell_the_state(t, now, q);
    law_summary_shows_the_state(t, now, v);
}

/// What goes out on either socket starts with the topic and decodes to the
/// frame that was taken.
pub proof fn law_message_carries_the_frame(m: Message, t: Telemetry, now: u64, q: Quantities)
    requires
        message_body(m) == frame_bytes(frame_of(t, now, q)),
    ensures
        message_body(m).take(4) == MAGIC@,
        decoded(message_body(m)) == Ok::<Frame, DecodeError>(frame_of(t, now, q)),
{
    let f = frame_of(t, now, q);
    law_frame_starts_with_topic(f);
    law_decode_of_encode(f, Seq::empty());
    assert(frame_bytes(f) + Seq::<u8>::empty() =~= frame_bytes(f));
}

/// The deadlines do not drift: the `n`th comes `n` periods after the start, and
/// no more than two ticks a second away from [`PUBLISH_HZ`].
pub proof fn law_deadlines_do_not_drift(start: u64, n: nat)
    requires
        start + n * period(PUBLISH_HZ as nat) <= u64::MAX,
    ensures
        ticked_by(publisher_at(start), n) == (Publisher {
            ticker: (start + n * period(PUBLISH_HZ as nat)) as u64,
            published: 0,
        }),
        PUBLISH_HZ * (n * period(PUBLISH_HZ as nat)) == n * (TICK_HZ + 2),
    decreases n,
{
    assert(period(5) == 32_770int / 5int);
    let p = period(PUBLISH_HZ as nat);
    assert(PUBLISH_HZ * (n * p) == n * (TICK_HZ + 2)) by (nonlinear_arith)
        requires
            p == 6554,
            PUBLISH_HZ == 5,
            TICK_HZ == 32_768,
    ;
    if n > 0 {
        assert(n * p == (n - 1) * p + p) by (nonlinear_arith);
        law_deadlines_do_not_drift(start, (n - 1) as nat);
    }
}

/// A frame carries the quantities of what has been reported, each by its own
/// sensor and whatever the state of the others: position and altitude under
/// the fix flag, speed and course under the course flag, the angles under the
/// IMU flag, and the acceleration wherever there is one.
pub proof fn law_frame_carries_what_is_reported(t: Telemetry, now: u64, q: Quantities)
    ensures
        ({
            let f = frame_of(t, now, q);
            &&& f.flags & 1 != 0 ==> f.latitude_deg == q.latitude_deg && f.longitude_deg
                == q.longitude_deg && f.altitude_m == q.altitude_m
            &&& f.flags & 16 != 0 ==> f.speed_mps == q.speed_mps && f.course_deg == q.course_deg
            &&& f.flags & 4 != 0 ==> f.yaw_deg == q.yaw_deg && f.pitch_deg == q.pitch_deg
                && f.roll_deg == q.roll_deg
            &&& t.acceleration is Some ==> f.accel_mss == q.accel_mss
            &&& t.gga matches Some(g) ==> f.satellites == g.satellites
            &&& t.orientation matches Some(o) ==> f.imu_status == o.status
            &&& f.flags & 1 != 0 <==> (t.gga matches Some(g) && g.fix != FixQuality::NoFix)
            &&& f.flags & 16 != 0 <==> (t.rmc matches Some(r) && r.valid)
            &&& f.flags & 4 != 0 <==> t.orientation is Some
        }),
{
    law_flags_tell_the_state(t, now, q);
}

/// A frame says how long the board has been up, in whole milliseconds, and
/// marks a sensor stale exactly when its last reading is more than three
/// seconds old.
pub proof fn law_frame_tells_the_time(t: Telemetry, now: u64, q: Quantities)
    requires
        uptime_fits(now),
    ensures
        ({
            let f = frame_of(t, now, q);
            &&& f.uptime_ms * 32_768 <= now * 1000 < (f.uptime_ms + 1) * 32_768
            &&& f.flags & 2 != 0 <==> (t.gnss_updated matches Some(at) && now - at > 3 * 32_768)
            &&& f.flags & 8 != 0 <==> (t.imu_updated matches Some(at) && now - at > 3 * 32_768)
            &&& f.flags < 32
        }),
{
    law_flags_tell_the_state(t, now, q);
    let a = flag_if(t.fixed(), FLAG_GNSS_FIX);
    let b = flag_if(is_stale(t.gnss_updated, now), FLAG_GNSS_STALE);
    let c = flag_if(has_course(t), FLAG_GNSS_COURSE);
    let d = flag_if(t.orientation is Some, FLAG_IMU);
    let e = flag_if(is_stale(t.imu_updated, now), FLAG_IMU_STALE);
    let flags = flags_of(t, now);
    assert(flags < 32) by (bit_vector)
        requires
            flags == a | b | c | d | e,
            a == 0 || a == 1,
            b == 0 || b == 2,
            c == 0 || c == 16,
            d == 0 || d == 4,
            e == 0 || e == 8,
    ;
}

/// The uptime can be told for as long as 125 times the ticks fit 64 bits: well
/// over a hundred thousand years.
pub proof fn law_uptime_can_be_told_for_ages(now: u64)
    ensures
        uptime_fits(now) <==> now <= 147_573_952_589_676_412,
{
}

/// Neither sensor speaks for the other in a frame: what the receiver reported
/// decides its part alone, and what the IMU reported decides the rest.
pub proof fn law_sensors_fill_their_own_part(
    t: Telemetry,
    u: Telemetry,
    now: u64,
    q: Quantities,
)
    ensures
        t.gga == u.gga && t.rmc == u.rmc ==> ({
            let f = frame_of(t, now, q);
            let g = frame_of(u, now, q);
            &&& f.fix == g.fix && f.satellites == g.satellites
            &&& f.latitude_deg == g.latitude_deg && f.longitude_deg == g.longitude_deg
            &&& f.altitude_m == g.altitude_m && f.speed_mps == g.speed_mps
            &&& f.course_deg == g.course_deg
        }),
        t.orientation == u.orientation && t.acceleration == u.acceleration ==> ({
            let f = frame_of(t, now, q);
            let g = frame_of(u, now, q);
            &&& f.imu_status == g.imu_status && f.yaw_deg == g.yaw_deg
            &&& f.pitch_deg == g.pitch_deg && f.roll_deg == g.roll_deg
            &&& f.accel_mss == g.accel_mss
        }),
        frame_of(t, now, q).uptime_ms == frame_of(u, now, q).uptime_ms,
{
}

/// Whatever a request says, it is answered with the frame of the moment, and
/// that is what subscribers are sent, where there are any.
pub proof fn law_one_frame_for_all(
    a: Seq<u8>,
    b: Seq<u8>,
    pipe_count: usize,
    t: Telemetry,
    now: u64,
    q: Quantities,
)
    ensures
        reply_to(a, t, now, q) == reply_to(b, t, now, q),
        decoded(reply_to(a, t, now, q)) == Ok::<Frame, DecodeError>(frame_of(t, now, q)),
        reply_to(a, t, now, q).len() == 69,
        published_to(pipe_count, t, now, q) is Some <==> pipe_count >= 1,
        published_to(pipe_count, t, now, q) matches Some(s) ==> s == reply_to(a, t, now, q),
{
    let f = frame_of(t, now, q);
    law_frame_starts_with_topic(f);
    law_decode_of_encode(f, Seq::empty());
    assert(frame_bytes(f) + Seq::<u8>::empty() =~= frame_bytes(f));
}

/// A request is logged as it was written, and what is not text as a note.
pub proof fn law_request_is_logged_as_it_is(text: Seq<char>, s: Seq<u8>)
    ensures
        request_shown(vstd::utf8::encode_utf8(text)) == text,
        !vstd::utf8::valid_utf8(s) ==> request_shown(s) == "<non-utf8>"@,
{
    law_text_is_shown_as_it_is(text, s);
}

/// Frames that went out are counted one by one, and every fiftieth is told.
pub proof fn law_published_frames_are_counted(p: Publisher)
    requires
        p.published < u32::MAX,
    ensures
        counted(p, true).0.published == p.published + 1,
        counted(p, true).0.ticker == p.ticker,
        counted(p, true).1 <==> (p.published + 1) % 50 == 0,
        counted(p, false) == (p, false),
        ticked(p).published == p.published,
{
}

/// The numbers that peers on the network rely on.
pub proof fn law_sockets_are_numbered()
    ensures
        REP_PORT == 5555,
        PUB_PORT == 5556,
        REP_PIPES == 2,
        PUB_PIPES == 2,
        PUBLISH_HZ == 5,
        RECEIVE_RETRY_MS == 100,
{
}

} // verus!
