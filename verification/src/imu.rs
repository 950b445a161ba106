//! CEVA/Hillcrest BNO08x 9-DoF IMU: SH-2 reports.
//!
//! * Channel 1 (executable) carries reset; channel 2 (control) carries
//!   Set Feature / Product ID commands and their responses; channel 3
//!   carries sensor input reports.
//! * An input packet is a `0xFB` time-base report followed by one or more
//!   fixed-length sensor reports, values in little-endian fixed point.

use vstd::prelude::*;
use crate::le::{
    from_le, i16_bytes, law_i16_reads_back, law_value_of_bytes, le_bytes, le_i16, le_value,
    lemma_byte_range, lemma_le_bytes_len, lemma_le_value_bound, to_i16,
};

verus! {

/// Default 7-bit address (ADR/SA0 pin low). 0x4B if it is pulled high.
pub const ADDRESS: u8 = 0x4A;

pub const CH_EXECUTABLE: u8 = 1;

pub const CH_CONTROL: u8 = 2;

pub const CH_INPUT: u8 = 3;

pub const REPORT_ACCELEROMETER: u8 = 0x01;

pub const REPORT_ROTATION_VECTOR: u8 = 0x05;

pub const REPORT_PRODUCT_ID_REQUEST: u8 = 0xF9;

pub const REPORT_PRODUCT_ID_RESPONSE: u8 = 0xF8;

pub const REPORT_SET_FEATURE: u8 = 0xFD;

pub const REPORT_GET_FEATURE_RESPONSE: u8 = 0xFC;

pub const REPORT_COMMAND_RESPONSE: u8 = 0xF1;

pub const REPORT_COMMAND_REQUEST: u8 = 0xF2;

pub const COMMAND_INITIALIZE: u8 = 0x04;

pub const REPORT_TIMEBASE: u8 = 0xFB;

pub const REPORT_TIMESTAMP_REBASE: u8 = 0xFA;

/// How often the sensor is asked for each report, in microseconds (20 Hz).
pub const REPORT_INTERVAL_US: u32 = 50_000;

/// Fractional bits of the components of an orientation.
pub const QUATERNION_FRACTION: u32 = 14;

/// Fractional bits of the accuracy of an orientation.
pub const ACCURACY_FRACTION: u32 = 12;

/// Fractional bits of the components of an acceleration.
pub const ACCELERATION_FRACTION: u32 = 8;

/// A unit quaternion, sensor frame to world frame, in the sensor's own fixed
/// point: the four components with [`QUATERNION_FRACTION`] fractional bits, the
/// accuracy in radians with [`ACCURACY_FRACTION`].
#[derive(Clone, Copy, Debug, PartialEq, Eq, Structural)]
pub struct Orientation {
    pub i: i16,
    pub j: i16,
    pub k: i16,
    pub real: i16,
    /// Estimated heading accuracy.
    pub accuracy: i16,
    /// 0 = unreliable to 3 = high (sensor's own calibration status).
    pub status: u8,
}

/// Sensor-frame acceleration, gravity included, in m/s2 with
/// [`ACCELERATION_FRACTION`] fractional bits.
#[derive(Clone, Copy, Debug, PartialEq, Eq, Structural)]
pub struct Acceleration {
    pub x: i16,
    pub y: i16,
    pub z: i16,
    pub status: u8,
}

/// Length of an input report by its ID; zero for an ID that is not known.
pub open spec fn report_len(id: u8) -> nat {
    if id == REPORT_TIMEBASE || id == REPORT_TIMESTAMP_REBASE {
        5
    } else if 0x01 <= id <= 0x04 {
        10
    } else if id == REPORT_ROTATION_VECTOR || id == 0x09 {
        14
    } else if id == 0x08 {
        12
    } else {
        0
    }
}

/// The reports at the front of an input packet, up to the first that is not
/// known or not complete.
pub open spec fn reports(p: Seq<u8>) -> Seq<Seq<u8>>
    decreases p.len(),
{
    if p.len() == 0 || report_len(p[0]) == 0 || report_len(p[0]) > p.len() {
        Seq::empty()
    } else {
        let n = report_len(p[0]) as int;
        seq![p.take(n)] + reports(p.skip(n))
    }
}

/// The little-endian signed fixed-point field of `r` at `at`.
pub open spec fn field_at(r: Seq<u8>, at: int) -> i16 {
    le_i16(r[at], r[at + 1]) as i16
}

/// The calibration status of a report.
pub open spec fn status_of(r: Seq<u8>) -> u8 {
    r[2] & 0x03
}

pub open spec fn orientation_of(r: Seq<u8>) -> Orientation {
    Orientation {
        i: field_at(r, 4),
        j: field_at(r, 6),
        k: field_at(r, 8),
        real: field_at(r, 10),
        accuracy: field_at(r, 12),
        status: status_of(r),
    }
}

pub open spec fn acceleration_of(r: Seq<u8>) -> Acceleration {
    Acceleration { x: field_at(r, 4), y: field_at(r, 6), z: field_at(r, 8), status: status_of(r) }
}

/// The newest orientation among the reports, or `before` when there is none.
pub open spec fn newest_orientation(rs: Seq<Seq<u8>>, before: Option<Orientation>) -> Option<
    Orientation,
>
    decreases rs.len(),
{
    if rs.len() == 0 {
        before
    } else if rs.last()[0] == REPORT_ROTATION_VECTOR {
        Some(orientation_of(rs.last()))
    } else {
        newest_orientation(rs.drop_last(), before)
    }
}

/// The newest acceleration among the reports, or `before` when there is none.
pub open spec fn newest_acceleration(rs: Seq<Seq<u8>>, before: Option<Acceleration>) -> Option<
    Acceleration,
>
    decreases rs.len(),
{
    if rs.len() == 0 {
        before
    } else if rs.last()[0] == REPORT_ACCELEROMETER {
        Some(acceleration_of(rs.last()))
    } else {
        newest_acceleration(rs.drop_last(), before)
    }
}

/// How many of the reports are orientations or accelerations.
pub open spec fn sensor_reports(rs: Seq<Seq<u8>>) -> nat
    decreases rs.len(),
{
    if rs.len() == 0 {
        0
    } else {
        sensor_reports(rs.drop_last()) + if rs.last()[0] == REPORT_ROTATION_VECTOR
            || rs.last()[0] == REPORT_ACCELEROMETER {
            1nat
        } else {
            0nat
        }
    }
}

/// The little-endian signed fixed-point field of `r` at `at`.
pub fn q(r: &[u8], at: usize) -> (v: i16)
    requires
        at + 1 < r@.len(),
    ensures
        v == field_at(r@, at as int),
{
    to_i16(r[at], r[at + 1])
}

fn known_len(id: u8) -> (n: usize)
    ensures
        n == report_len(id),
{
    if id == REPORT_TIMEBASE || id == REPORT_TIMESTAMP_REBASE {
        5
    } else if 0x01 <= id && id <= 0x04 {
        10
    } else if id == REPORT_ROTATION_VECTOR || id == 0x09 {
        14
    } else if id == 0x08 {
        12
    } else {
        0
    }
}

/// Walks the reports in an input packet, keeping the newest orientation and
/// acceleration. Returns the number of sensor reports decoded.
pub fn decode_input(
    payload: &[u8],
    orientation: &mut Option<Orientation>,
    acceleration: &mut Option<Acceleration>,
) -> (n: u32)
    requires
        payload@.len() <= 10 * 0xFFFF_FFFF,
    ensures
        *final(orientation) == newest_orientation(reports(payload@), *old(orientation)),
        *final(acceleration) == newest_acceleration(reports(payload@), *old(acceleration)),
        n == sensor_reports(reports(payload@)),
{
    let mut i: usize = 0;
    let mut n: u32 = 0;
    let ghost mut done: Seq<Seq<u8>> = Seq::empty();
    assert(payload@.skip(0) =~= payload@);
    assert(done + reports(payload@) =~= reports(payload@));
    while i < payload.len()
        invariant
            i <= payload@.len() <= 10 * 0xFFFF_FFFF,
            10 * n <= i,
            reports(payload@) =~= done + reports(payload@.skip(i as int)),
            *orientation == newest_orientation(done, *old(orientation)),
            *acceleration == newest_acceleration(done, *old(acceleration)),
            n == sensor_reports(done),
        ensures
            reports(payload@.skip(i as int)) =~= Seq::<Seq<u8>>::empty(),
        decreases payload@.len() - i,
    {
        let ghost rest = payload@.skip(i as int);
        let id: u8 = payload[i];
        let len: usize = known_len(id);
        assert(rest[0] == id);
        if len == 0 || len > payload.len() - i {
            break;
        }
        let r: &[u8] = vstd::slice::slice_subrange(payload, i, i + len);
        assert(r@ =~= rest.take(len as int));
        if id == REPORT_ROTATION_VECTOR {
            *orientation = Some(
                Orientation {
                    i: q(r, 4),
                    j: q(r, 6),
                    k: q(r, 8),
                    real: q(r, 10),
                    accuracy: q(r, 12),
                    status: r[2] & 0x03,
                },
            );
            n = n + 1;
        } else if id == REPORT_ACCELEROMETER {
            *acceleration = Some(
                Acceleration { x: q(r, 4), y: q(r, 6), z: q(r, 8), status: r[2] & 0x03 },
            );
            n = n + 1;
        }
        proof {
            assert(payload@.skip(i + len) =~= rest.skip(len as int));
            let more = done.push(r@);
            assert(more.drop_last() =~= done);
            assert(more + reports(rest.skip(len as int)) =~= done + reports(rest));
            done = more;
        }
        i = i + len;
    }
    assert(done + Seq::<Seq<u8>>::empty() =~= done);
    n
}

/// A control-channel response.
#[derive(Clone, Copy, Debug, PartialEq, Eq, Structural)]
pub enum ControlReport {
    /// What the sensor is.
    ProductId { part: u32, major: u8, minor: u8, patch: u16, build: u32, reset_cause: u8 },
    /// A report is on, at so many microseconds.
    Feature { report: u8, interval_us: u32 },
    /// The outcome of a command.
    Command { command: u8, status: u8 },
    /// A report that nothing is known of, and its size.
    Other { id: u8, len: usize },
    /// Nothing to tell.
    Nothing,
}

/// What a control-channel payload says.
pub open spec fn control_of(p: Seq<u8>) -> ControlReport {
    if p.len() == 0 {
        ControlReport::Nothing
    } else if p[0] == REPORT_PRODUCT_ID_RESPONSE {
        if p.len() >= 14 {
            ControlReport::ProductId {
                part: le_value(p.subrange(4, 8)) as u32,
                major: p[2],
                minor: p[3],
                patch: le_value(p.subrange(12, 14)) as u16,
                build: le_value(p.subrange(8, 12)) as u32,
                reset_cause: p[1],
            }
        } else {
            ControlReport::Nothing
        }
    } else if p[0] == REPORT_COMMAND_RESPONSE {
        if p.len() >= 6 {
            ControlReport::Command { command: p[2], status: p[5] }
        } else {
            ControlReport::Nothing
        }
    } else if p[0] == REPORT_GET_FEATURE_RESPONSE && p.len() >= 9 {
        ControlReport::Feature { report: p[1], interval_us: le_value(p.subrange(5, 9)) as u32 }
    } else {
        ControlReport::Other { id: p[0], len: p.len() as usize }
    }
}

/// The little-endian number of four bytes of `p` at `at`.
fn word(p: &[u8], at: usize) -> (v: u32)
    requires
        at + 4 <= p@.len(),
    ensures
        v == le_value(p@.subrange(at as int, at + 4)),
{
    let n: usize = p.len();
    assert(at + 4 <= n);
    let s: &[u8] = vstd::slice::slice_subrange(p, at, at + 4);
    proof {
        lemma_le_value_bound(s@);
        lemma_byte_range();
    }
    from_le(s) as u32
}

/// Reads a control-channel response. Nothing depends on it but what the
/// operator is told.
pub fn decode_control(payload: &[u8]) -> (out: ControlReport)
    ensures
        out == control_of(payload@),
{
    let n: usize = payload.len();
    if n == 0 {
        return ControlReport::Nothing;
    }
    let id: u8 = payload[0];
    if id == REPORT_PRODUCT_ID_RESPONSE {
        if n >= 14 {
            let s: &[u8] = vstd::slice::slice_subrange(payload, 12, 14);
            proof {
                lemma_le_value_bound(s@);
                lemma_byte_range();
            }
            ControlReport::ProductId {
                part: word(payload, 4),
                major: payload[2],
                minor: payload[3],
                patch: from_le(s) as u16,
                build: word(payload, 8),
                reset_cause: payload[1],
            }
        } else {
            ControlReport::Nothing
        }
    } else if id == REPORT_COMMAND_RESPONSE {
        if n >= 6 {
            ControlReport::Command { command: payload[2], status: payload[5] }
        } else {
            ControlReport::Nothing
        }
    } else if id == REPORT_GET_FEATURE_RESPONSE && n >= 9 {
        ControlReport::Feature { report: payload[1], interval_us: word(payload, 5) }
    } else {
        ControlReport::Other { id, len: n }
    }
}

/// The bytes of the reports, one behind the other.
pub open spec fn joined(rs: Seq<Seq<u8>>) -> Seq<u8>
    decreases rs.len(),
{
    if rs.len() == 0 {
        Seq::empty()
    } else {
        rs[0] + joined(rs.drop_first())
    }
}

/// Whether `r` is one report of a known kind, whole.
pub open spec fn is_report(r: Seq<u8>) -> bool {
    &&& r.len() > 0
    &&& report_len(r[0]) > 0
    &&& r.len() == report_len(r[0])
}

/// A packet of whole reports is read report by report, and what follows them
/// is read as if it stood alone.
pub proof fn law_whole_reports_are_read(rs: Seq<Seq<u8>>, rest: Seq<u8>)
    requires
        forall|i: int| 0 <= i < rs.len() ==> is_report(#[trigger] rs[i]),
    ensures
        reports(joined(rs) + rest) == rs + reports(rest),
    decreases rs.len(),
{
    if rs.len() == 0 {
        assert(joined(rs) + rest =~= rest);
        assert(rs + reports(rest) =~= reports(rest));
    } else {
        let tail = rs.drop_first();
        assert forall|i: int| 0 <= i < tail.len() implies is_report(#[trigger] tail[i]) by {
            assert(tail[i] == rs[i + 1]);
        }
        law_whole_reports_are_read(tail, rest);
        let p = joined(rs) + rest;
        assert(is_report(rs[0]));
        let n = rs[0].len() as int;
        assert(p[0] == rs[0][0]);
        assert(p.take(n) =~= rs[0]);
        assert(p.skip(n) =~= joined(tail) + rest);
        assert(rs =~= seq![rs[0]] + tail);
        assert(reports(p) =~= rs + reports(rest));
    }
}

/// The count tells whether a packet had anything to say: with none counted,
/// the readings stay what they were.
pub proof fn law_nothing_counted_nothing_changed(
    rs: Seq<Seq<u8>>,
    orientation: Option<Orientation>,
    acceleration: Option<Acceleration>,
)
    requires
        sensor_reports(rs) == 0,
    ensures
        newest_orientation(rs, orientation) == orientation,
        newest_acceleration(rs, acceleration) == acceleration,
    decreases rs.len(),
{
    if rs.len() > 0 {
        law_nothing_counted_nothing_changed(rs.drop_last(), orientation, acceleration);
    }
}

/// The newest readings and the count of two runs of reports, one behind the
/// other.
proof fn lemma_runs_of_reports(
    a: Seq<Seq<u8>>,
    b: Seq<Seq<u8>>,
    orientation: Option<Orientation>,
    acceleration: Option<Acceleration>,
)
    ensures
        sensor_reports(a + b) == sensor_reports(a) + sensor_reports(b),
        newest_orientation(a + b, orientation) == newest_orientation(
            b,
            newest_orientation(a, orientation),
        ),
        newest_acceleration(a + b, acceleration) == newest_acceleration(
            b,
            newest_acceleration(a, acceleration),
        ),
    decreases b.len(),
{
    if b.len() == 0 {
        assert(a + b =~= a);
    } else {
        assert((a + b).drop_last() =~= a + b.drop_last());
        lemma_runs_of_reports(a, b.drop_last(), orientation, acceleration);
    }
}

/// A packet of whole reports with anything behind it says what the two say one
/// after the other: the counts add up, and the readings of the second are newer
/// than those of the first.
pub proof fn law_packets_add_up(
    rs: Seq<Seq<u8>>,
    rest: Seq<u8>,
    orientation: Option<Orientation>,
    acceleration: Option<Acceleration>,
)
    requires
        forall|i: int| 0 <= i < rs.len() ==> is_report(#[trigger] rs[i]),
    ensures
        ({
            let a = joined(rs);
            &&& sensor_reports(reports(a + rest)) == sensor_reports(reports(a)) + sensor_reports(
                reports(rest),
            )
            &&& newest_orientation(reports(a + rest), orientation) == newest_orientation(
                reports(rest),
                newest_orientation(reports(a), orientation),
            )
            &&& newest_acceleration(reports(a + rest), acceleration) == newest_acceleration(
                reports(rest),
                newest_acceleration(reports(a), acceleration),
            )
        }),
{
    let a = joined(rs);
    law_whole_reports_are_read(rs, rest);
    law_whole_reports_are_read(rs, Seq::empty());
    assert(a + Seq::<u8>::empty() =~= a);
    assert(rs + reports(Seq::<u8>::empty()) =~= rs);
    lemma_runs_of_reports(rs, reports(rest), orientation, acceleration);
}

/// A rotation vector report: an ID, a sequence number, the status in the two low
/// bits of a byte, a delay, then quaternion and accuracy.
pub open spec fn rotation_report(o: Orientation, seq: u8, flags: u8, delay: u8) -> Seq<u8> {
    seq![0x05u8, seq, (4 * flags + o.status) as u8, delay] + i16_bytes(o.i) + i16_bytes(o.j)
        + i16_bytes(o.k) + i16_bytes(o.real) + i16_bytes(o.accuracy)
}

/// An accelerometer report, with the same head.
pub open spec fn acceleration_report(a: Acceleration, seq: u8, flags: u8, delay: u8) -> Seq<u8> {
    seq![0x01u8, seq, (4 * flags + a.status) as u8, delay] + i16_bytes(a.x) + i16_bytes(a.y)
        + i16_bytes(a.z)
}

proof fn lemma_status(flags: u8, status: u8)
    requires
        flags < 64,
        status < 4,
    ensures
        ((4 * flags + status) as u8) & 0x03 == status,
{
    assert(((4 * flags + status) as u8) & 0x03 == status) by (bit_vector)
        requires
            flags < 64,
            status < 4,
    ;
}

proof fn lemma_last_report(rs: Seq<Seq<u8>>, r: Seq<u8>)
    requires
        forall|i: int| 0 <= i < rs.len() ==> is_report(#[trigger] rs[i]),
        is_report(r),
    ensures
        reports(joined(rs) + r) == rs.push(r),
        reports(joined(rs)) == rs,
        rs.push(r).last() == r,
        rs.push(r).drop_last() == rs,
{
    law_whole_reports_are_read(rs, r);
    law_whole_reports_are_read(rs, Seq::empty());
    law_whole_reports_are_read(seq![r], Seq::empty());
    assert(joined(rs) + Seq::<u8>::empty() =~= joined(rs));
    assert(rs + reports(Seq::<u8>::empty()) =~= rs);
    assert(seq![r].drop_first() =~= Seq::<Seq<u8>>::empty());
    reveal_with_fuel(joined, 2);
    assert(joined(seq![r]) + Seq::<u8>::empty() =~= r);
    assert(seq![r] + reports(Seq::<u8>::empty()) =~= seq![r]);
    assert(rs + seq![r] =~= rs.push(r));
    assert(rs.push(r).drop_last() =~= rs);
}

/// An orientation reads back from its report, whatever reports stand before it:
/// five numbers and the status, exactly. It counts as one, and leaves the
/// acceleration alone.
pub proof fn law_orientation_reads_back(
    rs: Seq<Seq<u8>>,
    o: Orientation,
    seq: u8,
    flags: u8,
    delay: u8,
    before: Option<Orientation>,
    acceleration: Option<Acceleration>,
)
    requires
        forall|i: int| 0 <= i < rs.len() ==> is_report(#[trigger] rs[i]),
        o.status < 4,
        flags < 64,
    ensures
        ({
            let p = joined(rs) + rotation_report(o, seq, flags, delay);
            &&& newest_orientation(reports(p), before) == Some(o)
            &&& newest_acceleration(reports(p), acceleration) == newest_acceleration(
                reports(joined(rs)),
                acceleration,
            )
            &&& sensor_reports(reports(p)) == sensor_reports(reports(joined(rs))) + 1
        }),
{
    let r = rotation_report(o, seq, flags, delay);
    lemma_status(flags, o.status);
    law_i16_reads_back(o.i);
    law_i16_reads_back(o.j);
    law_i16_reads_back(o.k);
    law_i16_reads_back(o.real);
    law_i16_reads_back(o.accuracy);
    assert(r.len() == 14 && r[0] == 0x05);
    lemma_last_report(rs, r);
    assert(r[4] == i16_bytes(o.i)[0] && r[5] == i16_bytes(o.i)[1]);
    assert(r[6] == i16_bytes(o.j)[0] && r[7] == i16_bytes(o.j)[1]);
    assert(r[8] == i16_bytes(o.k)[0] && r[9] == i16_bytes(o.k)[1]);
    assert(r[10] == i16_bytes(o.real)[0] && r[11] == i16_bytes(o.real)[1]);
    assert(r[12] == i16_bytes(o.accuracy)[0] && r[13] == i16_bytes(o.accuracy)[1]);
}

/// An acceleration reads back from its report, whatever reports stand before
/// it: three numbers and the status, exactly. It counts as one, and leaves the
/// orientation alone.
pub proof fn law_acceleration_reads_back(
    rs: Seq<Seq<u8>>,
    a: Acceleration,
    seq: u8,
    flags: u8,
    delay: u8,
    before: Option<Acceleration>,
    orientation: Option<Orientation>,
)
    requires
        forall|i: int| 0 <= i < rs.len() ==> is_report(#[trigger] rs[i]),
        a.status < 4,
        flags < 64,
    ensures
        ({
            let p = joined(rs) + acceleration_report(a, seq, flags, delay);
            &&& newest_acceleration(reports(p), before) == Some(a)
            &&& newest_orientation(reports(p), orientation) == newest_orientation(
                reports(joined(rs)),
                orientation,
            )
            &&& sensor_reports(reports(p)) == sensor_reports(reports(joined(rs))) + 1
        }),
{
    let r = acceleration_report(a, seq, flags, delay);
    lemma_status(flags, a.status);
    law_i16_reads_back(a.x);
    law_i16_reads_back(a.y);
    law_i16_reads_back(a.z);
    assert(r.len() == 10 && r[0] == 0x01);
    lemma_last_report(rs, r);
    assert(r[4] == i16_bytes(a.x)[0] && r[5] == i16_bytes(a.x)[1]);
    assert(r[6] == i16_bytes(a.y)[0] && r[7] == i16_bytes(a.y)[1]);
    assert(r[8] == i16_bytes(a.z)[0] && r[9] == i16_bytes(a.z)[1]);
}

/// The reports that are not looked into: time bases, other sensors' reports of
/// their lengths. They are passed over and change nothing, and a report that is
/// not known or not whole ends the packet.
pub proof fn law_other_reports_are_passed_over(
    rs: Seq<Seq<u8>>,
    r: Seq<u8>,
    rest: Seq<u8>,
    orientation: Option<Orientation>,
    acceleration: Option<Acceleration>,
)
    requires
        forall|i: int| 0 <= i < rs.len() ==> is_report(#[trigger] rs[i]),
        r.len() > 0,
    ensures
        ((r[0] == 0xFB || r[0] == 0xFA) && r.len() == 5) || ((r[0] == 0x02 || r[0] == 0x03 || r[0]
            == 0x04) && r.len() == 10) || (r[0] == 0x08 && r.len() == 12) || (r[0] == 0x09
            && r.len() == 14) ==> {
            let p = joined(rs) + r;
            &&& is_report(r)
            &&& newest_orientation(reports(p), orientation) == newest_orientation(
                reports(joined(rs)),
                orientation,
            )
            &&& newest_acceleration(reports(p), acceleration) == newest_acceleration(
                reports(joined(rs)),
                acceleration,
            )
            &&& sensor_reports(reports(p)) == sensor_reports(reports(joined(rs)))
        },
        r[0] == 0 || r[0] == 0x06 || r[0] == 0x07 || 0x0A <= r[0] <= 0xF9 || r[0] >= 0xFC
            ==> reports(joined(rs) + (r + rest)) == rs,
        (0x01 <= r[0] <= 0x04 && r.len() < 10) || ((r[0] == 0x05 || r[0] == 0x09) && r.len() < 14)
            || (r[0] == 0x08 && r.len() < 12) || ((r[0] == 0xFA || r[0] == 0xFB) && r.len() < 5)
            ==> reports(joined(rs) + r) == rs,
{
    if is_report(r) {
        lemma_last_report(rs, r);
    }
    law_whole_reports_are_read(rs, r + rest);
    law_whole_reports_are_read(rs, r);
    assert((r + rest)[0] == r[0]);
    assert(rs + Seq::<Seq<u8>>::empty() =~= rs);
}

/// What the sensor says it is, reads back from its response.
pub proof fn law_product_id_reads_back(
    part: u32,
    major: u8,
    minor: u8,
    patch: u16,
    build: u32,
    reset_cause: u8,
    rest: Seq<u8>,
)
    ensures
        control_of(
            seq![0xF8u8, reset_cause, major, minor] + le_bytes(part as nat, 4) + le_bytes(
                build as nat,
                4,
            ) + le_bytes(patch as nat, 2) + rest,
        ) == (ControlReport::ProductId { part, major, minor, patch, build, reset_cause }),
{
    let p = seq![0xF8u8, reset_cause, major, minor] + le_bytes(part as nat, 4) + le_bytes(
        build as nat,
        4,
    ) + le_bytes(patch as nat, 2) + rest;
    lemma_byte_range();
    lemma_le_bytes_len(part as nat, 4);
    lemma_le_bytes_len(build as nat, 4);
    lemma_le_bytes_len(patch as nat, 2);
    law_value_of_bytes(part as nat, 4);
    law_value_of_bytes(build as nat, 4);
    law_value_of_bytes(patch as nat, 2);
    assert(p.subrange(4, 8) =~= le_bytes(part as nat, 4));
    assert(p.subrange(8, 12) =~= le_bytes(build as nat, 4));
    assert(p.subrange(12, 14) =~= le_bytes(patch as nat, 2));
}

/// A response that is cut short says nothing, or no more than what it is; any
/// other control report is told by its ID and its size.
pub proof fn law_other_responses_are_told(p: Seq<u8>)
    requires
        0 < p.len() <= usize::MAX,
    ensures
        control_of(Seq::empty()) == ControlReport::Nothing,
        p[0] == 0xF8 && p.len() < 14 ==> control_of(p) == ControlReport::Nothing,
        p[0] == 0xF1 && p.len() < 6 ==> control_of(p) == ControlReport::Nothing,
        p[0] == 0xFC && p.len() < 9 ==> (control_of(p) matches ControlReport::Other { id, len }
            && id == 0xFC && len == p.len()),
        p[0] != 0xF8 && p[0] != 0xF1 && p[0] != 0xFC ==> (control_of(p)
            matches ControlReport::Other { id, len } && id == p[0] && len == p.len()),
{
}

/// What the sensor says of a report that is on, and of a command, reads back
/// from its response.
pub proof fn law_responses_read_back(
    report: u8,
    interval_us: u32,
    command: u8,
    status: u8,
    a: u8,
    b: u8,
    c: u8,
    rest: Seq<u8>,
)
    ensures
        control_of(
            seq![0xFCu8, report, a, b, c] + le_bytes(interval_us as nat, 4) + rest,
        ) == (ControlReport::Feature { report, interval_us }),
        control_of(seq![0xF1u8, a, command, b, c, status] + rest) == (ControlReport::Command {
            command,
            status,
        }),
{
    let p = seq![0xFCu8, report, a, b, c] + le_bytes(interval_us as nat, 4) + rest;
    lemma_byte_range();
    lemma_le_bytes_len(interval_us as nat, 4);
    law_value_of_bytes(interval_us as nat, 4);
    assert(p.subrange(5, 9) =~= le_bytes(interval_us as nat, 4));
}

/// The numbers that the sensor answers to, and the scales that it measures in.
pub proof fn law_sensor_is_addressed()
    ensures
        ADDRESS == 0x4A,
        REPORT_INTERVAL_US == 50_000,
        QUATERNION_FRACTION == 14,
        ACCURACY_FRACTION == 12,
        ACCELERATION_FRACTION == 8,
{
}

} // verus!
