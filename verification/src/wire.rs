//! The telemetry frame that the board publishes and the host decodes.
//!
//! A fixed-size little-endian record with a magic and a version. The frame
//! starts with [`MAGIC`], which doubles as the topic of the NNG publisher: a
//! subscriber filtering on `MAGIC` receives every telemetry frame and nothing
//! else.
//!
//! The physical quantities travel as IEEE 754 numbers. This module moves their
//! bit patterns and never interprets them.

use vstd::prelude::*;
use vstd::string::*;
use crate::telemetry::{ends_with, lemma_dec_chars, no_bar, starts_with};
use crate::text::{
    dec, dec_len, law_padded_chars, law_padded_number_is_its_digits, law_written_numbers_differ,
    lemma_padded_len, padded, pow10, push_dec, push_padded, push_spaces, wide,
};
use crate::le::{
    le_bytes, le_value, to_le, from_le, lemma_byte_range, lemma_le_bytes_len, lemma_le_value_bound,
    law_bytes_of_value, law_value_of_bytes,
};

verus! {

/// First four bytes of every frame, `H7TM`; also the topic prefix.
pub const MAGIC: [u8; 4] = [0x48, 0x37, 0x54, 0x4D];

/// Bumped whenever the layout below changes.
pub const VERSION: u8 = 1;

/// Encoded size of one frame.
pub const FRAME_LEN: usize = 69;

/// `flags` bit: the GNSS has a position fix.
pub const FLAG_GNSS_FIX: u8 = 1;

/// `flags` bit: the last GNSS reading is older than the staleness limit.
pub const FLAG_GNSS_STALE: u8 = 2;

/// `flags` bit: the IMU has reported an orientation.
pub const FLAG_IMU: u8 = 4;

/// `flags` bit: the last IMU reading is older than the staleness limit.
pub const FLAG_IMU_STALE: u8 = 8;

/// `flags` bit: `speed_mps` / `course_deg` are valid (GNSS `RMC`).
pub const FLAG_GNSS_COURSE: u8 = 16;

/// One telemetry sample.
///
/// Fields whose corresponding flag is clear are zero, not stale data. The
/// fields that hold a physical quantity hold the bit pattern of a binary64
/// (`u64`) or binary32 (`u32`) number.
#[derive(Clone, Copy, Debug, PartialEq, Eq)]
pub struct Frame {
    /// Board uptime when the sample was taken.
    pub uptime_ms: u64,
    /// See the `FLAG_*` constants.
    pub flags: u8,
    /// GNSS fix quality, as reported in `GGA` (0 = none, 1 = GNSS, 2 = DGNSS, ...).
    pub fix: u8,
    /// Satellites used in the solution.
    pub satellites: u8,
    /// IMU calibration status, 0 (unreliable) to 3 (high).
    pub imu_status: u8,
    /// Degrees, positive north; binary64 bits.
    pub latitude_deg: u64,
    /// Degrees, positive east; binary64 bits.
    pub longitude_deg: u64,
    /// Metres above mean sea level; binary32 bits.
    pub altitude_m: u32,
    /// Speed over ground, m/s; binary32 bits.
    pub speed_mps: u32,
    /// Course over ground, degrees clockwise from true north; binary32 bits.
    pub course_deg: u32,
    /// Degrees; binary32 bits.
    pub yaw_deg: u32,
    /// Degrees; binary32 bits.
    pub pitch_deg: u32,
    /// Degrees; binary32 bits.
    pub roll_deg: u32,
    /// Acceleration including gravity, m/s2, sensor frame; binary32 bits.
    pub accel_mss: [u32; 3],
}

/// Why a byte slice is not a frame.
#[derive(Clone, Copy, Debug, PartialEq, Eq, Structural)]
pub enum DecodeError {
    /// Fewer than [`FRAME_LEN`] bytes.
    TooShort,
    /// The leading bytes are not [`MAGIC`].
    BadMagic,
    /// A version this build does not know how to read.
    BadVersion(u8),
}

impl Default for Frame {
    fn default() -> (f: Frame)
        ensures
            f == empty_frame(),
    {
        let accel_mss: [u32; 3] = [0, 0, 0];
        assert(accel_mss =~= empty_frame().accel_mss);
        Frame {
            uptime_ms: 0,
            flags: 0,
            fix: 0,
            satellites: 0,
            imu_status: 0,
            latitude_deg: 0,
            longitude_deg: 0,
            altitude_m: 0,
            speed_mps: 0,
            course_deg: 0,
            yaw_deg: 0,
            pitch_deg: 0,
            roll_deg: 0,
            accel_mss,
        }
    }
}

/// A frame with every field zero.
pub open spec fn empty_frame() -> Frame {
    Frame {
        uptime_ms: 0,
        flags: 0,
        fix: 0,
        satellites: 0,
        imu_status: 0,
        latitude_deg: 0,
        longitude_deg: 0,
        altitude_m: 0,
        speed_mps: 0,
        course_deg: 0,
        yaw_deg: 0,
        pitch_deg: 0,
        roll_deg: 0,
        accel_mss: [0, 0, 0],
    }
}

/// The bytes of a frame on the wire.
pub open spec fn frame_bytes(f: Frame) -> Seq<u8> {
    MAGIC@ + seq![VERSION, f.flags, f.fix, f.satellites, f.imu_status]
        + le_bytes(f.uptime_ms as nat, 8)
        + le_bytes(f.latitude_deg as nat, 8)
        + le_bytes(f.longitude_deg as nat, 8)
        + le_bytes(f.altitude_m as nat, 4)
        + le_bytes(f.speed_mps as nat, 4)
        + le_bytes(f.course_deg as nat, 4)
        + le_bytes(f.yaw_deg as nat, 4)
        + le_bytes(f.pitch_deg as nat, 4)
        + le_bytes(f.roll_deg as nat, 4)
        + le_bytes(f.accel_mss[0] as nat, 4)
        + le_bytes(f.accel_mss[1] as nat, 4)
        + le_bytes(f.accel_mss[2] as nat, 4)
}

/// The frame whose fields stand at their places in `s`, behind magic and version.
pub open spec fn frame_at(s: Seq<u8>) -> Frame {
    Frame {
        flags: s[5],
        fix: s[6],
        satellites: s[7],
        imu_status: s[8],
        uptime_ms: le_value(s.subrange(9, 17)) as u64,
        latitude_deg: le_value(s.subrange(17, 25)) as u64,
        longitude_deg: le_value(s.subrange(25, 33)) as u64,
        altitude_m: le_value(s.subrange(33, 37)) as u32,
        speed_mps: le_value(s.subrange(37, 41)) as u32,
        course_deg: le_value(s.subrange(41, 45)) as u32,
        yaw_deg: le_value(s.subrange(45, 49)) as u32,
        pitch_deg: le_value(s.subrange(49, 53)) as u32,
        roll_deg: le_value(s.subrange(53, 57)) as u32,
        accel_mss: [
            le_value(s.subrange(57, 61)) as u32,
            le_value(s.subrange(61, 65)) as u32,
            le_value(s.subrange(65, 69)) as u32,
        ],
    }
}

/// What a byte slice decodes to.
pub open spec fn decoded(s: Seq<u8>) -> Result<Frame, DecodeError> {
    if s.len() < FRAME_LEN {
        Err(DecodeError::TooShort)
    } else if s.take(4) != MAGIC@ {
        Err(DecodeError::BadMagic)
    } else if s[4] != VERSION {
        Err(DecodeError::BadVersion(s[4]))
    } else {
        Ok(frame_at(s))
    }
}

/// Cursor that writes fields back to back into a frame-sized buffer.
pub struct Writer<'a> {
    pub buf: &'a mut [u8; FRAME_LEN],
    pub at: usize,
}

impl<'a> Writer<'a> {
    /// What has been written so far.
    pub open spec fn written(self) -> Seq<u8> {
        self.buf@.take(self.at as int)
    }

    /// Whether `n` more bytes have room.
    pub open spec fn has_room(self, n: nat) -> bool {
        self.at + n <= FRAME_LEN
    }

    /// `self` is `before` with `v` written behind what was there: the bytes
    /// further on are untouched.
    pub open spec fn extends(self, before: Self, v: Seq<u8>) -> bool {
        &&& self.at == before.at + v.len()
        &&& self.written() =~= before.written() + v
        &&& self.buf@.skip(self.at as int) =~= before.buf@.skip(self.at as int)
    }

    pub fn u8(&mut self, v: u8)
        requires
            old(self).has_room(1),
        ensures
            final(self).extends(*old(self), seq![v]),
            *final(final(self).buf) == *final(old(self).buf),
    {
        self.buf[self.at] = v;
        self.at = self.at + 1;
    }

    pub fn bytes(&mut self, v: &[u8])
        requires
            old(self).has_room(v@.len()),
        ensures
            final(self).extends(*old(self), v@),
            *final(final(self).buf) == *final(old(self).buf),
    {
        let mut i: usize = 0;
        let ghost before = *self;
        assert(v@.take(0) =~= Seq::<u8>::empty());
        assert(before.written() =~= before.written() + v@.take(0));
        while i < v.len()
            invariant
                i <= v@.len(),
                before.has_room(v@.len()),
                self.extends(before, v@.take(i as int)),
                *final(self.buf) == *final(before.buf),
            decreases v@.len() - i,
        {
            let ghost prev = *self;
            self.u8(v[i]);
            i = i + 1;
            assert(v@.take(i as int) =~= v@.take(i - 1) + seq![v@[i - 1]]);
            assert(self.buf@.skip(self.at as int) =~= prev.buf@.skip(prev.at as int).skip(1));
            assert(before.buf@.skip(self.at as int) =~= before.buf@.skip(prev.at as int).skip(1));
        }
        assert(v@.take(i as int) =~= v@);
    }

    pub fn u64(&mut self, v: u64)
        requires
            old(self).has_room(8),
        ensures
            final(self).extends(*old(self), le_bytes(v as nat, 8)),
            *final(final(self).buf) == *final(old(self).buf),
    {
        proof {
            lemma_le_bytes_len(v as nat, 8);
        }
        self.bytes(to_le(v, 8).as_slice());
    }

    /// Writes a binary64 number, given by its bits.
    pub fn f64_bits(&mut self, v: u64)
        requires
            old(self).has_room(8),
        ensures
            final(self).extends(*old(self), le_bytes(v as nat, 8)),
            *final(final(self).buf) == *final(old(self).buf),
    {
        self.u64(v);
    }

    /// Writes a binary32 number, given by its bits.
    pub fn f32_bits(&mut self, v: u32)
        requires
            old(self).has_room(4),
        ensures
            final(self).extends(*old(self), le_bytes(v as nat, 4)),
            *final(final(self).buf) == *final(old(self).buf),
    {
        proof {
            lemma_le_bytes_len(v as nat, 4);
        }
        self.bytes(to_le(v as u64, 4).as_slice());
    }
}

/// Cursor over a validated slice of at least [`FRAME_LEN`] bytes.
pub struct Reader<'a> {
    pub buf: &'a [u8],
    pub at: usize,
}

impl<'a> Reader<'a> {
    /// Whether `n` more bytes are there to be read.
    pub open spec fn has_left(self, n: nat) -> bool {
        self.at + n <= self.buf@.len()
    }

    /// The next `n` bytes.
    pub open spec fn next(self, n: nat) -> Seq<u8> {
        self.buf@.subrange(self.at as int, self.at + n)
    }

    /// `self` is `before` moved on by `n` bytes.
    pub open spec fn advanced(self, before: Self, n: nat) -> bool {
        &&& self.buf@ == before.buf@
        &&& self.at == before.at + n
    }

    pub fn u8(&mut self) -> (v: u8)
        requires
            old(self).has_left(1),
        ensures
            v == old(self).buf@[old(self).at as int],
            final(self).advanced(*old(self), 1),
    {
        let v: u8 = self.buf[self.at];
        self.at = self.at + 1;
        v
    }

    pub fn array<const N: usize>(&mut self) -> (out: [u8; N])
        requires
            old(self).has_left(N as nat),
        ensures
            out@ == old(self).next(N as nat),
            final(self).advanced(*old(self), N as nat),
    {
        let mut out: [u8; N] = [0u8; N];
        let mut i: usize = 0;
        let total: usize = self.buf.len();
        let ghost before = *self;
        while i < N
            invariant
                i <= N,
                *self == before,
                before.has_left(N as nat),
                before.buf@.len() == total,
                out@.take(i as int) =~= before.next(N as nat).take(i as int),
            decreases N - i,
        {
            out[i] = self.buf[self.at + i];
            i = i + 1;
            assert(out@.take(i as int) =~= out@.take(i - 1).push(out@[i - 1]));
            assert(before.next(N as nat).take(i as int) =~= before.next(N as nat).take(
                i - 1,
            ).push(before.buf@[before.at + i - 1]));
        }
        assert(out@ =~= out@.take(N as int));
        assert(before.next(N as nat) =~= before.next(N as nat).take(N as int));
        self.at = self.at + N;
        out
    }

    pub fn u64(&mut self) -> (v: u64)
        requires
            old(self).has_left(8),
        ensures
            v == le_value(old(self).next(8)),
            final(self).advanced(*old(self), 8),
    {
        let raw: [u8; 8] = self.array();
        from_le(raw.as_slice())
    }

    /// Reads a binary64 number as its bits.
    pub fn f64_bits(&mut self) -> (v: u64)
        requires
            old(self).has_left(8),
        ensures
            v == le_value(old(self).next(8)),
            final(self).advanced(*old(self), 8),
    {
        self.u64()
    }

    /// Reads a binary32 number as its bits.
    pub fn f32_bits(&mut self) -> (v: u32)
        requires
            old(self).has_left(4),
        ensures
            v == le_value(old(self).next(4)),
            final(self).advanced(*old(self), 4),
    {
        let raw: [u8; 4] = self.array();
        proof {
            lemma_le_value_bound(raw@);
            lemma_byte_range();
        }
        from_le(raw.as_slice()) as u32
    }
}

impl Frame {
    /// Serialize to exactly [`FRAME_LEN`] bytes.
    pub fn encode(&self) -> (out: [u8; FRAME_LEN])
        ensures
            out@ == frame_bytes(*self),
    {
        let mut buf: [u8; FRAME_LEN] = [0u8; FRAME_LEN];
        let mut w = Writer { buf: &mut buf, at: 0 };
        proof {
            lemma_part_lens(*self);
        }
        w.bytes(MAGIC.as_slice());
        w.u8(VERSION);
        w.u8(self.flags);
        w.u8(self.fix);
        w.u8(self.satellites);
        w.u8(self.imu_status);
        assert(w.written() =~= MAGIC@ + seq![
            VERSION, self.flags, self.fix, self.satellites, self.imu_status,
        ]);
        w.u64(self.uptime_ms);
        w.f64_bits(self.latitude_deg);
        w.f64_bits(self.longitude_deg);
        w.f32_bits(self.altitude_m);
        w.f32_bits(self.speed_mps);
        w.f32_bits(self.course_deg);
        w.f32_bits(self.yaw_deg);
        w.f32_bits(self.pitch_deg);
        w.f32_bits(self.roll_deg);
        w.f32_bits(self.accel_mss[0]);
        w.f32_bits(self.accel_mss[1]);
        w.f32_bits(self.accel_mss[2]);
        assert(w.written() == frame_bytes(*self));
        assert(w.written() =~= w.buf@);
        buf
    }

    /// Parse a frame. Trailing bytes beyond [`FRAME_LEN`] are ignored.
    pub fn decode(buf: &[u8]) -> (out: Result<Frame, DecodeError>)
        ensures
            out == decoded(buf@),
    {
        if buf.len() < FRAME_LEN {
            return Err(DecodeError::TooShort);
        }
        if buf[0] != MAGIC[0] || buf[1] != MAGIC[1] || buf[2] != MAGIC[2] || buf[3] != MAGIC[3] {
            return Err(DecodeError::BadMagic);
        }
        assert(buf@.take(4) =~= MAGIC@);
        if buf[4] != VERSION {
            return Err(DecodeError::BadVersion(buf[4]));
        }
        let mut r = Reader { buf, at: 5 };
        let flags: u8 = r.u8();
        let fix: u8 = r.u8();
        let satellites: u8 = r.u8();
        let imu_status: u8 = r.u8();
        let uptime_ms: u64 = r.u64();
        let latitude_deg: u64 = r.f64_bits();
        let longitude_deg: u64 = r.f64_bits();
        let altitude_m: u32 = r.f32_bits();
        let speed_mps: u32 = r.f32_bits();
        let course_deg: u32 = r.f32_bits();
        let yaw_deg: u32 = r.f32_bits();
        let pitch_deg: u32 = r.f32_bits();
        let roll_deg: u32 = r.f32_bits();
        let accel_x: u32 = r.f32_bits();
        let accel_y: u32 = r.f32_bits();
        let accel_z: u32 = r.f32_bits();
        let accel_mss: [u32; 3] = [accel_x, accel_y, accel_z];
        assert(accel_mss =~= frame_at(buf@).accel_mss);
        Ok(
            Frame {
                uptime_ms,
                flags,
                fix,
                satellites,
                imu_status,
                latitude_deg,
                longitude_deg,
                altitude_m,
                speed_mps,
                course_deg,
                yaw_deg,
                pitch_deg,
                roll_deg,
                accel_mss,
            },
        )
    }

    /// Whether the sample carries a position.
    pub open spec fn fix_flag(self) -> bool {
        self.flags & FLAG_GNSS_FIX != 0
    }

    /// Whether the sample carries an orientation.
    pub open spec fn imu_flag(self) -> bool {
        self.flags & FLAG_IMU != 0
    }

    pub fn has_fix(&self) -> (b: bool)
        ensures
            b == self.fix_flag(),
    {
        self.flags & FLAG_GNSS_FIX != 0
    }

    pub fn has_imu(&self) -> (b: bool)
        ensures
            b == self.imu_flag(),
    {
        self.flags & FLAG_IMU != 0
    }
}

/// The lengths of the parts of an encoded frame.
proof fn lemma_part_lens(f: Frame)
    ensures
        le_bytes(f.uptime_ms as nat, 8).len() == 8,
        le_bytes(f.latitude_deg as nat, 8).len() == 8,
        le_bytes(f.longitude_deg as nat, 8).len() == 8,
        le_bytes(f.altitude_m as nat, 4).len() == 4,
        le_bytes(f.speed_mps as nat, 4).len() == 4,
        le_bytes(f.course_deg as nat, 4).len() == 4,
        le_bytes(f.yaw_deg as nat, 4).len() == 4,
        le_bytes(f.pitch_deg as nat, 4).len() == 4,
        le_bytes(f.roll_deg as nat, 4).len() == 4,
        le_bytes(f.accel_mss[0] as nat, 4).len() == 4,
        le_bytes(f.accel_mss[1] as nat, 4).len() == 4,
        le_bytes(f.accel_mss[2] as nat, 4).len() == 4,
{
    lemma_le_bytes_len(f.uptime_ms as nat, 8);
    lemma_le_bytes_len(f.latitude_deg as nat, 8);
    lemma_le_bytes_len(f.longitude_deg as nat, 8);
    lemma_le_bytes_len(f.altitude_m as nat, 4);
    lemma_le_bytes_len(f.speed_mps as nat, 4);
    lemma_le_bytes_len(f.course_deg as nat, 4);
    lemma_le_bytes_len(f.yaw_deg as nat, 4);
    lemma_le_bytes_len(f.pitch_deg as nat, 4);
    lemma_le_bytes_len(f.roll_deg as nat, 4);
    lemma_le_bytes_len(f.accel_mss[0] as nat, 4);
    lemma_le_bytes_len(f.accel_mss[1] as nat, 4);
    lemma_le_bytes_len(f.accel_mss[2] as nat, 4);
}

/// Every frame is [`FRAME_LEN`] bytes long and starts with the topic that
/// subscribers filter on.
pub proof fn law_frame_starts_with_topic(f: Frame)
    ensures
        frame_bytes(f).len() == FRAME_LEN,
        frame_bytes(f).take(4) == MAGIC@,
{
    lemma_part_lens(f);
    assert(frame_bytes(f).take(4) =~= MAGIC@);
}

/// Nothing but a message under the topic is taken for a frame.
pub proof fn law_only_the_topic_decodes(s: Seq<u8>)
    requires
        decoded(s) is Ok,
    ensures
        s.take(4) == MAGIC@,
        s[4] == VERSION,
        s.len() >= FRAME_LEN,
{
}

/// Decoding what was encoded gives the frame back, whatever bytes follow it.
pub proof fn law_decode_of_encode(f: Frame, trailing: Seq<u8>)
    ensures
        decoded(frame_bytes(f) + trailing) == Ok::<Frame, DecodeError>(f),
{
    let s = frame_bytes(f) + trailing;
    lemma_part_lens(f);
    lemma_byte_range();
    law_frame_starts_with_topic(f);
    assert(s.take(4) =~= MAGIC@);
    law_value_of_bytes(f.uptime_ms as nat, 8);
    law_value_of_bytes(f.latitude_deg as nat, 8);
    law_value_of_bytes(f.longitude_deg as nat, 8);
    law_value_of_bytes(f.altitude_m as nat, 4);
    law_value_of_bytes(f.speed_mps as nat, 4);
    law_value_of_bytes(f.course_deg as nat, 4);
    law_value_of_bytes(f.yaw_deg as nat, 4);
    law_value_of_bytes(f.pitch_deg as nat, 4);
    law_value_of_bytes(f.roll_deg as nat, 4);
    law_value_of_bytes(f.accel_mss[0] as nat, 4);
    law_value_of_bytes(f.accel_mss[1] as nat, 4);
    law_value_of_bytes(f.accel_mss[2] as nat, 4);
    assert(s.subrange(9, 17) =~= le_bytes(f.uptime_ms as nat, 8));
    assert(s.subrange(17, 25) =~= le_bytes(f.latitude_deg as nat, 8));
    assert(s.subrange(25, 33) =~= le_bytes(f.longitude_deg as nat, 8));
    assert(s.subrange(33, 37) =~= le_bytes(f.altitude_m as nat, 4));
    assert(s.subrange(37, 41) =~= le_bytes(f.speed_mps as nat, 4));
    assert(s.subrange(41, 45) =~= le_bytes(f.course_deg as nat, 4));
    assert(s.subrange(45, 49) =~= le_bytes(f.yaw_deg as nat, 4));
    assert(s.subrange(49, 53) =~= le_bytes(f.pitch_deg as nat, 4));
    assert(s.subrange(53, 57) =~= le_bytes(f.roll_deg as nat, 4));
    assert(s.subrange(57, 61) =~= le_bytes(f.accel_mss[0] as nat, 4));
    assert(s.subrange(61, 65) =~= le_bytes(f.accel_mss[1] as nat, 4));
    assert(s.subrange(65, 69) =~= le_bytes(f.accel_mss[2] as nat, 4));
    assert(frame_at(s).accel_mss =~= f.accel_mss);
}

/// Encoding what was decoded gives back the bytes that made up the frame.
pub proof fn law_encode_of_decode(s: Seq<u8>)
    requires
        decoded(s) is Ok,
    ensures
        frame_bytes(decoded(s)->Ok_0) == s.take(FRAME_LEN as int),
{
    let f = frame_at(s);
    lemma_part_lens(f);
    lemma_byte_range();
    lemma_le_value_bound(s.subrange(9, 17));
    lemma_le_value_bound(s.subrange(17, 25));
    lemma_le_value_bound(s.subrange(25, 33));
    lemma_le_value_bound(s.subrange(33, 37));
    lemma_le_value_bound(s.subrange(37, 41));
    lemma_le_value_bound(s.subrange(41, 45));
    lemma_le_value_bound(s.subrange(45, 49));
    lemma_le_value_bound(s.subrange(49, 53));
    lemma_le_value_bound(s.subrange(53, 57));
    lemma_le_value_bound(s.subrange(57, 61));
    lemma_le_value_bound(s.subrange(61, 65));
    lemma_le_value_bound(s.subrange(65, 69));
    law_bytes_of_value(s.subrange(9, 17));
    law_bytes_of_value(s.subrange(17, 25));
    law_bytes_of_value(s.subrange(25, 33));
    law_bytes_of_value(s.subrange(33, 37));
    law_bytes_of_value(s.subrange(37, 41));
    law_bytes_of_value(s.subrange(41, 45));
    law_bytes_of_value(s.subrange(45, 49));
    law_bytes_of_value(s.subrange(49, 53));
    law_bytes_of_value(s.subrange(53, 57));
    law_bytes_of_value(s.subrange(57, 61));
    law_bytes_of_value(s.subrange(61, 65));
    law_bytes_of_value(s.subrange(65, 69));
    assert(s.take(FRAME_LEN as int) =~= s.take(4) + seq![s[4], s[5], s[6], s[7], s[8]]
        + s.subrange(9, 17) + s.subrange(17, 25) + s.subrange(25, 33) + s.subrange(33, 37)
        + s.subrange(37, 41) + s.subrange(41, 45) + s.subrange(45, 49) + s.subrange(49, 53)
        + s.subrange(53, 57) + s.subrange(57, 61) + s.subrange(61, 65) + s.subrange(65, 69));
}

/// What a decoding error says.
pub open spec fn error_text(e: DecodeError) -> Seq<char> {
    match e {
        DecodeError::TooShort => "frame too short"@,
        DecodeError::BadMagic => "bad magic"@,
        DecodeError::BadVersion(v) => "unsupported frame version "@ + dec(v as nat),
    }
}

impl DecodeError {
    pub fn message(&self) -> (out: String)
        ensures
            out@ == error_text(*self),
    {
        let mut out: String = String::new();
        match self {
            DecodeError::TooShort => out.append("frame too short"),
            DecodeError::BadMagic => out.append("bad magic"),
            DecodeError::BadVersion(v) => {
                out.append("unsupported frame version ");
                push_dec(&mut out, *v as u64);
            },
        }
        assert(out@ =~= error_text(*self));
        out
    }
}

/// Uptimes below this many milliseconds (2^43 seconds) are written out to the
/// millisecond. From there on a binary64 number of seconds is too coarse for
/// three decimals.
pub const EXACT_UPTIME_MS: u64 = 8_796_093_022_208_000;

/// The physical quantities of a frame, written out: latitude and longitude with
/// six decimals; the others with one. The uptime, in seconds with three
/// decimals and right-aligned in nine columns, is used from [`EXACT_UPTIME_MS`]
/// on.
#[derive(Debug, PartialEq, Eq)]
pub struct FrameText {
    pub uptime_s: String,
    pub latitude_deg: String,
    pub longitude_deg: String,
    pub altitude_m: String,
    pub yaw_deg: String,
    pub pitch_deg: String,
    pub roll_deg: String,
}

/// `s` with spaces in front, up to `width` characters.
pub open spec fn right_aligned(s: Seq<char>, width: nat) -> Seq<char> {
    if s.len() >= width {
        s
    } else {
        Seq::new((width - s.len()) as nat, |i: int| ' ') + s
    }
}

/// The uptime of a frame, as its line shows it: seconds with three decimals,
/// right-aligned in nine columns.
pub open spec fn uptime_text(f: Frame, q: FrameText) -> Seq<char> {
    if f.uptime_ms < EXACT_UPTIME_MS {
        right_aligned(
            dec(f.uptime_ms as nat / 1000) + "."@ + padded(f.uptime_ms as nat % 1000, 3),
            9,
        )
    } else {
        q.uptime_s@
    }
}

/// What a frame says of the receiver.
pub open spec fn frame_gnss_text(f: Frame, q: FrameText) -> Seq<char> {
    if f.fix_flag() {
        "pos "@ + q.latitude_deg@ + ","@ + q.longitude_deg@ + " alt "@ + q.altitude_m@ + "m (fix "@
            + dec(f.fix as nat) + ", "@ + dec(f.satellites as nat) + " sats)"@
    } else {
        "pos -- (no fix, "@ + dec(f.satellites as nat) + " sats)"@
    }
}

/// What a frame says of the IMU.
pub open spec fn frame_imu_text(f: Frame, q: FrameText) -> Seq<char> {
    if f.imu_flag() {
        "yaw "@ + q.yaw_deg@ + " pitch "@ + q.pitch_deg@ + " roll "@ + q.roll_deg@ + " (imu "@
            + dec(f.imu_status as nat) + "/3)"@
    } else {
        "yaw -- pitch -- roll -- (no imu data)"@
    }
}

/// The mark of a stale reading.
pub open spec fn stale_text(is_stale: bool) -> Seq<char> {
    if is_stale {
        " [stale]"@
    } else {
        Seq::empty()
    }
}

/// One-line summary of a frame, the same shape the board logs.
pub open spec fn frame_line(f: Frame, q: FrameText) -> Seq<char> {
    uptime_text(f, q) + "s "@ + frame_gnss_text(f, q) + stale_text(f.flags & FLAG_GNSS_STALE != 0)
        + " | "@ + frame_imu_text(f, q) + stale_text(f.flags & FLAG_IMU_STALE != 0)
}

impl Frame {
    fn push_uptime(&self, out: &mut String, q: &FrameText)
        ensures
            final(out)@ == old(out)@ + uptime_text(*self, *q),
    {
        if self.uptime_ms >= EXACT_UPTIME_MS {
            out.append(q.uptime_s.as_str());
            return;
        }
        let whole: u64 = self.uptime_ms / 1000;
        let frac: u64 = self.uptime_ms % 1000;
        let len: u64 = dec_len(whole);
        proof {
            reveal_strlit(".");
            assert(pow10(3) == 1000) by {
                reveal_with_fuel(pow10, 4);
            }
            lemma_padded_len(frac as nat, 3);
        }
        if len < 5 {
            push_spaces(out, 5 - len);
        }
        push_dec(out, whole);
        out.append(".");
        push_padded(out, frac, 3);
        assert(out@ =~= old(out)@ + uptime_text(*self, *q));
    }

    fn push_gnss(&self, out: &mut String, q: &FrameText)
        ensures
            final(out)@ == old(out)@ + frame_gnss_text(*self, *q),
    {
        if self.has_fix() {
            out.append("pos ");
            out.append(q.latitude_deg.as_str());
            out.append(",");
            out.append(q.longitude_deg.as_str());
            out.append(" alt ");
            out.append(q.altitude_m.as_str());
            out.append("m (fix ");
            push_dec(out, self.fix as u64);
            out.append(", ");
            push_dec(out, self.satellites as u64);
            out.append(" sats)");
        } else {
            out.append("pos -- (no fix, ");
            push_dec(out, self.satellites as u64);
            out.append(" sats)");
        }
        assert(out@ =~= old(out)@ + frame_gnss_text(*self, *q));
    }

    fn push_imu(&self, out: &mut String, q: &FrameText)
        ensures
            final(out)@ == old(out)@ + frame_imu_text(*self, *q),
    {
        if self.has_imu() {
            out.append("yaw ");
            out.append(q.yaw_deg.as_str());
            out.append(" pitch ");
            out.append(q.pitch_deg.as_str());
            out.append(" roll ");
            out.append(q.roll_deg.as_str());
            out.append(" (imu ");
            push_dec(out, self.imu_status as u64);
            out.append("/3)");
        } else {
            out.append("yaw -- pitch -- roll -- (no imu data)");
        }
        assert(out@ =~= old(out)@ + frame_imu_text(*self, *q));
    }

    /// One-line summary of the frame, with its quantities written as in `q`.
    pub fn line(&self, q: &FrameText) -> (out: String)
        ensures
            out@ == frame_line(*self, *q),
    {
        let mut out: String = String::new();
        self.push_uptime(&mut out, q);
        out.append("s ");
        self.push_gnss(&mut out, q);
        if self.flags & FLAG_GNSS_STALE != 0 {
            out.append(" [stale]");
        }
        out.append(" | ");
        self.push_imu(&mut out, q);
        if self.flags & FLAG_IMU_STALE != 0 {
            out.append(" [stale]");
        }
        assert(out@ =~= frame_line(*self, *q));
        out
    }
}

/// Where each field of a frame stands on the wire, numbers with their low byte
/// first.
pub proof fn law_fields_keep_their_places(f: Frame)
    ensures
        ({
            let s = frame_bytes(f);
            &&& s.len() == 69
            &&& s.take(4) == seq![0x48u8, 0x37u8, 0x54u8, 0x4Du8]
            &&& s[4] == 1 && s[5] == f.flags && s[6] == f.fix && s[7] == f.satellites && s[8]
                == f.imu_status
            &&& le_value(s.subrange(9, 17)) == f.uptime_ms
            &&& le_value(s.subrange(17, 25)) == f.latitude_deg
            &&& le_value(s.subrange(25, 33)) == f.longitude_deg
            &&& le_value(s.subrange(33, 37)) == f.altitude_m
            &&& le_value(s.subrange(37, 41)) == f.speed_mps
            &&& le_value(s.subrange(41, 45)) == f.course_deg
            &&& le_value(s.subrange(45, 49)) == f.yaw_deg
            &&& le_value(s.subrange(49, 53)) == f.pitch_deg
            &&& le_value(s.subrange(53, 57)) == f.roll_deg
            &&& le_value(s.subrange(57, 61)) == f.accel_mss[0]
            &&& le_value(s.subrange(61, 65)) == f.accel_mss[1]
            &&& le_value(s.subrange(65, 69)) == f.accel_mss[2]
        }),
{
    let s = frame_bytes(f);
    lemma_part_lens(f);
    lemma_byte_range();
    law_value_of_bytes(f.uptime_ms as nat, 8);
    law_value_of_bytes(f.latitude_deg as nat, 8);
    law_value_of_bytes(f.longitude_deg as nat, 8);
    law_value_of_bytes(f.altitude_m as nat, 4);
    law_value_of_bytes(f.speed_mps as nat, 4);
    law_value_of_bytes(f.course_deg as nat, 4);
    law_value_of_bytes(f.yaw_deg as nat, 4);
    law_value_of_bytes(f.pitch_deg as nat, 4);
    law_value_of_bytes(f.roll_deg as nat, 4);
    law_value_of_bytes(f.accel_mss[0] as nat, 4);
    law_value_of_bytes(f.accel_mss[1] as nat, 4);
    law_value_of_bytes(f.accel_mss[2] as nat, 4);
    assert(s.take(4) =~= seq![0x48u8, 0x37u8, 0x54u8, 0x4Du8]);
    assert(s.subrange(9, 17) =~= le_bytes(f.uptime_ms as nat, 8));
    assert(s.subrange(17, 25) =~= le_bytes(f.latitude_deg as nat, 8));
    assert(s.subrange(25, 33) =~= le_bytes(f.longitude_deg as nat, 8));
    assert(s.subrange(33, 37) =~= le_bytes(f.altitude_m as nat, 4));
    assert(s.subrange(37, 41) =~= le_bytes(f.speed_mps as nat, 4));
    assert(s.subrange(41, 45) =~= le_bytes(f.course_deg as nat, 4));
    assert(s.subrange(45, 49) =~= le_bytes(f.yaw_deg as nat, 4));
    assert(s.subrange(49, 53) =~= le_bytes(f.pitch_deg as nat, 4));
    assert(s.subrange(53, 57) =~= le_bytes(f.roll_deg as nat, 4));
    assert(s.subrange(57, 61) =~= le_bytes(f.accel_mss[0] as nat, 4));
    assert(s.subrange(61, 65) =~= le_bytes(f.accel_mss[1] as nat, 4));
    assert(s.subrange(65, 69) =~= le_bytes(f.accel_mss[2] as nat, 4));
}

/// Why bytes are not a frame: too few of them, another topic, or another
/// version, in that order; anything else is one.
pub proof fn law_refusals_say_why(s: Seq<u8>, v: u8)
    ensures
        decoded(s) == Err::<Frame, DecodeError>(DecodeError::TooShort) <==> s.len() < 69,
        decoded(s) == Err::<Frame, DecodeError>(DecodeError::BadMagic) <==> s.len() >= 69
            && s.take(4) != seq![0x48u8, 0x37u8, 0x54u8, 0x4Du8],
        decoded(s) == Err::<Frame, DecodeError>(DecodeError::BadVersion(v)) <==> s.len() >= 69
            && s.take(4) == seq![0x48u8, 0x37u8, 0x54u8, 0x4Du8] && s[4] == v && v != 1,
{
    assert(MAGIC@ =~= seq![0x48u8, 0x37u8, 0x54u8, 0x4Du8]);
}

/// Why a frame is refused is told in words, and a version in its own digits.
pub proof fn law_refused_version_is_told(v: u8, w: u8)
    ensures
        error_text(DecodeError::TooShort) == "frame too short"@,
        error_text(DecodeError::BadMagic) == "bad magic"@,
        error_text(DecodeError::BadVersion(v)) == "unsupported frame version "@ + dec(v as nat),
        error_text(DecodeError::BadVersion(v)) == error_text(DecodeError::BadVersion(w)) ==> v == w,
{
    let head = "unsupported frame version "@;
    let a = error_text(DecodeError::BadVersion(v));
    let b = error_text(DecodeError::BadVersion(w));
    if a == b {
        assert(a.skip(head.len() as int) =~= dec(v as nat));
        assert(b.skip(head.len() as int) =~= dec(w as nat));
        law_written_numbers_differ(v as nat, w as nat);
    }
}

/// The receiver's part of a frame's line, behind the uptime.
pub open spec fn frame_left(f: Frame, q: FrameText) -> Seq<char> {
    uptime_text(f, q) + "s "@ + frame_gnss_text(f, q) + stale_text(f.flags & 2 != 0)
}

/// The IMU's part of a frame's line.
pub open spec fn frame_right(f: Frame, q: FrameText) -> Seq<char> {
    frame_imu_text(f, q) + stale_text(f.flags & 8 != 0)
}

/// Whether none of the texts of a frame's quantities holds a bar.
pub open spec fn texts_have_no_bar(q: FrameText) -> bool {
    &&& no_bar(q.uptime_s@) && no_bar(q.latitude_deg@) && no_bar(q.longitude_deg@)
    &&& no_bar(q.altitude_m@) && no_bar(q.yaw_deg@) && no_bar(q.pitch_deg@) && no_bar(q.roll_deg@)
}

/// A text with the stale mark behind it, or not.
proof fn lemma_mark(text: Seq<char>, is_stale: bool)
    requires
        text.len() > 0,
        text.last() == ')',
    ensures
        ends_with(text + stale_text(is_stale), " [stale]"@) <==> is_stale,
        no_bar(text) ==> no_bar(text + stale_text(is_stale)),
{
    reveal_strlit(" [stale]");
    let all = text + stale_text(is_stale);
    if is_stale {
        assert(all.skip(all.len() - 8) =~= " [stale]"@);
    } else {
        assert(all =~= text);
        if ends_with(all, " [stale]"@) {
            assert(all.skip(all.len() - 8)[7] == all.last());
        }
    }
}

proof fn lemma_uptime_has_no_bar(f: Frame, q: FrameText)
    requires
        texts_have_no_bar(q),
    ensures
        no_bar(uptime_text(f, q)),
{
    reveal_strlit(".");
    lemma_dec_chars(f.uptime_ms as nat / 1000);
    lemma_dec_chars(f.uptime_ms as nat % 1000);
}

/// What the receiver's part of a line starts with, and its last character.
#[verifier::spinoff_prover]
proof fn lemma_left_words(f: Frame, q: FrameText)
    ensures
        ({
            let head = uptime_text(f, q);
            let l = head + "s "@ + frame_gnss_text(f, q);
            &&& l.len() > 0 && l.last() == ')'
            &&& f.flags & 1 != 0 ==> l == head + "s pos "@ + q.latitude_deg@ + ","@
                + q.longitude_deg@ + " alt "@ + q.altitude_m@ + "m (fix "@ + dec(f.fix as nat)
                + ", "@ + dec(f.satellites as nat) + " sats)"@
            &&& f.flags & 1 == 0 ==> l == head + "s pos -- (no fix, "@ + dec(f.satellites as nat)
                + " sats)"@
        }),
{
    reveal_strlit("s ");
    reveal_strlit("pos ");
    reveal_strlit("s pos ");
    reveal_strlit(" sats)");
    reveal_strlit("pos -- (no fix, ");
    reveal_strlit("s pos -- (no fix, ");
    let head = uptime_text(f, q);
    let l = head + "s "@ + frame_gnss_text(f, q);
    assert("s "@ + "pos "@ =~= "s pos "@);
    assert("s "@ + "pos -- (no fix, "@ =~= "s pos -- (no fix, "@);
    if f.flags & 1 != 0 {
        let tail = q.latitude_deg@ + ","@ + q.longitude_deg@ + " alt "@ + q.altitude_m@
            + "m (fix "@ + dec(f.fix as nat) + ", "@ + dec(f.satellites as nat) + " sats)"@;
        assert(frame_gnss_text(f, q) =~= "pos "@ + tail);
        assert(l =~= head + ("s "@ + "pos "@) + tail);
        assert(head + "s pos "@ + tail =~= head + "s pos "@ + q.latitude_deg@ + ","@
            + q.longitude_deg@ + " alt "@ + q.altitude_m@ + "m (fix "@ + dec(f.fix as nat) + ", "@
            + dec(f.satellites as nat) + " sats)"@);
        assert(tail.last() == ')');
    } else {
        let tail = dec(f.satellites as nat) + " sats)"@;
        assert(l =~= head + ("s "@ + "pos -- (no fix, "@) + tail);
        assert(head + "s pos -- (no fix, "@ + tail =~= head + "s pos -- (no fix, "@ + dec(
            f.satellites as nat,
        ) + " sats)"@);
        assert(tail.last() == ')');
    }
}

/// No bar stands in the receiver's part of a line.
#[verifier::spinoff_prover]
proof fn lemma_left_has_no_bar(f: Frame, q: FrameText)
    requires
        texts_have_no_bar(q),
    ensures
        no_bar(uptime_text(f, q) + "s "@ + frame_gnss_text(f, q)),
{
    reveal_strlit("s ");
    reveal_strlit("pos ");
    reveal_strlit(",");
    reveal_strlit(" alt ");
    reveal_strlit("m (fix ");
    reveal_strlit(", ");
    reveal_strlit(" sats)");
    reveal_strlit("pos -- (no fix, ");
    lemma_dec_chars(f.fix as nat);
    lemma_dec_chars(f.satellites as nat);
    lemma_uptime_has_no_bar(f, q);
    assert(no_bar(frame_gnss_text(f, q)));
}

/// No bar stands in the IMU's part of a line, which ends in a bracket.
#[verifier::spinoff_prover]
proof fn lemma_right_words(f: Frame, q: FrameText)
    ensures
        frame_imu_text(f, q).len() > 0 && frame_imu_text(f, q).last() == ')',
        texts_have_no_bar(q) ==> no_bar(frame_imu_text(f, q)),
{
    reveal_strlit("yaw ");
    reveal_strlit(" pitch ");
    reveal_strlit(" roll ");
    reveal_strlit(" (imu ");
    reveal_strlit("/3)");
    reveal_strlit("yaw -- pitch -- roll -- (no imu data)");
    lemma_dec_chars(f.imu_status as nat);
}

/// The line of a frame divides at its bar into the receiver's part and the
/// IMU's part. Each ends in the stale mark exactly when its own stale bit is
/// set. A position is shown exactly when its bit is set, behind the uptime and
/// in its own words; so is an orientation.
pub proof fn law_line_shows_the_frame(f: Frame, q: FrameText)
    ensures
        ({
            let left = frame_left(f, q);
            let right = frame_right(f, q);
            let head = uptime_text(f, q);
            &&& frame_line(f, q) == left + " | "@ + right
            &&& texts_have_no_bar(q) ==> no_bar(left) && no_bar(right)
            &&& ends_with(left, " [stale]"@) <==> f.flags & 2 != 0
            &&& ends_with(right, " [stale]"@) <==> f.flags & 8 != 0
            &&& f.flags & 1 != 0 ==> starts_with(
                left,
                head + "s pos "@ + q.latitude_deg@ + ","@ + q.longitude_deg@ + " alt "@
                    + q.altitude_m@ + "m (fix "@ + dec(f.fix as nat) + ", "@ + dec(
                    f.satellites as nat,
                ) + " sats)"@,
            )
            &&& f.flags & 1 == 0 ==> starts_with(
                left,
                head + "s pos -- (no fix, "@ + dec(f.satellites as nat) + " sats)"@,
            )
            &&& f.flags & 4 != 0 ==> starts_with(
                right,
                "yaw "@ + q.yaw_deg@ + " pitch "@ + q.pitch_deg@ + " roll "@ + q.roll_deg@
                    + " (imu "@ + dec(f.imu_status as nat) + "/3)"@,
            )
            &&& f.flags & 4 == 0 ==> starts_with(right, "yaw -- pitch -- roll -- (no imu data)"@)
        }),
{
    let l = uptime_text(f, q) + "s "@ + frame_gnss_text(f, q);
    let r = frame_imu_text(f, q);
    lemma_left_words(f, q);
    lemma_right_words(f, q);
    if texts_have_no_bar(q) {
        lemma_left_has_no_bar(f, q);
    }
    lemma_mark(l, f.flags & 2 != 0);
    lemma_mark(r, f.flags & 8 != 0);
    assert(frame_line(f, q) =~= frame_left(f, q) + " | "@ + frame_right(f, q));
    assert(frame_left(f, q).take(l.len() as int) =~= l);
    assert(frame_right(f, q).take(r.len() as int) =~= r);
}

/// A number divided by a constant, from its quotient and remainder.
proof fn lemma_quotient(n: int, d: int, q: int, r: int)
    by (nonlinear_arith)
    requires
        n == d * q + r,
        0 <= r < d,
    ensures
        n / d == q,
        n % d == r,
{
}

proof fn lemma_low_digits(n: nat)
    ensures
        n % 1000 / 100 == n / 100 % 10,
        n % 1000 / 10 % 10 == n / 10 % 10,
        n % 1000 % 10 == n % 10,
{
    let a = n as int / 1000;
    let r = n as int % 1000;
    let h = r / 100;
    let t = r % 100 / 10;
    let u = r % 10;
    assert(r == 100 * h + 10 * t + u && 0 <= h < 10 && 0 <= t < 10 && 0 <= u < 10);
    let m = n as int;
    assert(m == 1000 * a + r);
    lemma_quotient(m, 100, 10 * a + h, 10 * t + u);
    lemma_quotient(10 * a + h, 10, a, h);
    lemma_quotient(m, 10, 100 * a + 10 * h + t, u);
    lemma_quotient(100 * a + 10 * h + t, 10, 10 * a + h, t);
    lemma_quotient(r, 10, 10 * h + t, u);
    lemma_quotient(10 * h + t, 10, h, t);
}

proof fn lemma_three_digits(ms: nat)
    requires
        ms < 1000,
    ensures
        ({
            let p = padded(ms, 3);
            &&& p.len() == 3
            &&& p[0] as int - 0x30 == ms / 100
            &&& p[1] as int - 0x30 == ms / 10 % 10
            &&& p[2] as int - 0x30 == ms % 10
        }),
{
    let p = padded(ms, 3);
    let w = wide(ms, 3);
    assert(pow10(3) == 1000) by {
        reveal_with_fuel(pow10, 4);
    }
    lemma_padded_len(ms, 3);
    law_padded_number_is_its_digits(ms, 3);
    law_padded_chars(ms, 3);
    assert(w.len() == 3 && w[0] == 0x30 + ms / 10 / 10 % 10 && w[1] == 0x30 + ms / 10 % 10 && w[2]
        == 0x30 + ms % 10) by {
        reveal_with_fuel(wide, 4);
    }
    assert(p[0] as u8 == w[0] && p[1] as u8 == w[1] && p[2] as u8 == w[2]);
}

/// From 2^43 seconds on, where a double no longer holds every millisecond, the
/// uptime is told as it was rounded.
pub proof fn law_long_uptime_is_taken_over(f: Frame, q: FrameText)
    requires
        f.uptime_ms >= 8_796_093_022_208_000,
    ensures
        uptime_text(f, q) == q.uptime_s@,
{
}

/// The uptime is told in seconds and milliseconds, to the millisecond, in nine
/// columns where it has room: whole seconds, a point and three digits.
#[verifier::spinoff_prover]
pub proof fn law_uptime_is_told(f: Frame, q: FrameText)
    requires
        f.uptime_ms < 8_796_093_022_208_000,
    ensures
        ({
            let text = uptime_text(f, q);
            let digits = dec(f.uptime_ms as nat / 1000);
            let at = text.len() - 4;
            &&& text.len() == (if digits.len() + 4 > 9 {
                digits.len() + 4
            } else {
                9
            })
            &&& text[at] == '.'
            &&& text.subrange(at - digits.len(), at) == digits
            &&& forall|i: int| 0 <= i < at - digits.len() ==> text[i] == ' '
            &&& text[at + 1] as int - 0x30 == f.uptime_ms / 100 % 10
            &&& text[at + 2] as int - 0x30 == f.uptime_ms / 10 % 10
            &&& text[at + 3] as int - 0x30 == f.uptime_ms % 10
        }),
{
    let n = f.uptime_ms as nat;
    let p = padded(n % 1000, 3);
    let digits = dec(n / 1000);
    let text = uptime_text(f, q);
    let core = digits + "."@ + p;
    let k = text.len() - core.len();
    reveal_strlit(".");
    lemma_three_digits(n % 1000);
    lemma_low_digits(n);
    assert(core.len() == digits.len() + 4);
    assert(text == right_aligned(core, 9));
    assert(forall|i: int| 0 <= i < core.len() ==> text[k + i] == core[i]);
    let d = digits.len() as int;
    assert(text[k + d] == core[d] && core[d] == '.');
    assert(text[k + (d + 1)] == core[d + 1] && core[d + 1] == p[0]);
    assert(text[k + (d + 2)] == core[d + 2] && core[d + 2] == p[1]);
    assert(text[k + (d + 3)] == core[d + 3] && core[d + 3] == p[2]);
    assert(text.subrange(k, k + d) =~= digits);
}

} // verus!
