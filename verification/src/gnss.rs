//! u-blox ZOE-M8Q GNSS receiver: its NMEA byte stream.
//!
//! The receiver's I2C interface is a byte stream behind three registers: a
//! big-endian count of the bytes waiting, and the stream itself, which reads
//! as `0xFF` past its end. The stream is cut into NMEA sentences, each
//! checksum is verified, and the position and fix fields are taken from `GGA`
//! and `RMC`. Anything else (`GSV`, `GSA`, `VTG`, `GLL`) is ignored.
//!
//! Quantities are kept as the decimal numbers that the receiver wrote.

use vstd::prelude::*;
use vstd::string::*;
use crate::telemetry::Telemetry;
use crate::text::{
    bytes_of, decimal_or_zero, find, lemma_ascii_boundary, lemma_position, lemma_position_is,
    parse_or_zero, parse_unsigned, position, split, split_str, unsigned,
};

verus! {

/// Default 7-bit address of every u-blox M8 receiver.
pub const ADDRESS: u8 = 0x42;

/// Register with the count of bytes waiting to be read.
pub const REG_BYTES_AVAILABLE: u8 = 0xFD;

/// Register that the data stream is read from.
pub const REG_DATA_STREAM: u8 = 0xFF;

/// How often to ask the receiver whether it has anything, in milliseconds.
/// NMEA output is 1 Hz by default, so this keeps latency low without
/// hammering the bus.
pub const POLL_INTERVAL_MS: u64 = 100;

/// Back-off after a NAK or bus error, in milliseconds. The receiver NAKs its
/// own address while it has nothing to send (and for a while after power-up),
/// so this is normal early on and must not be treated as fatal.
pub const RETRY_INTERVAL_MS: u64 = 250;

/// Longest NMEA sentence is 82 bytes with `$` and `\r\n`.
pub const MAX_SENTENCE: usize = 96;

/// Bytes per read of the data stream.
pub const CHUNK: usize = 64;

/// Type of position fix, from the `GGA` fix-quality field.
#[derive(Clone, Copy, Debug, PartialEq, Eq, Structural)]
pub enum FixQuality {
    /// No position.
    NoFix,
    Gnss,
    Dgnss,
    /// Any other non-zero value the receiver may emit (estimated, RTK, ...).
    Other(u8),
}

/// The fix quality that a `GGA` field stands for.
pub open spec fn fix_of(field: Seq<u8>) -> FixQuality {
    match unsigned(field, 10, 0xFF) {
        None => FixQuality::NoFix,
        Some(n) => if n == 0 {
            FixQuality::NoFix
        } else if n == 1 {
            FixQuality::Gnss
        } else if n == 2 {
            FixQuality::Dgnss
        } else {
            FixQuality::Other(n as u8)
        },
    }
}

impl FixQuality {
    pub fn from_field(field: &str) -> (fix: FixQuality)
        ensures
            fix == fix_of(field.spec_bytes()),
    {
        match parse_unsigned(field.as_bytes(), 10, 0xFF) {
            None => FixQuality::NoFix,
            Some(n) => if n == 0 {
                FixQuality::NoFix
            } else if n == 1 {
                FixQuality::Gnss
            } else if n == 2 {
                FixQuality::Dgnss
            } else {
                FixQuality::Other(n as u8)
            },
        }
    }
}

/// A decimal number as written: `whole` and `frac / 10^frac_digits` together,
/// negated when `neg`.
#[derive(Clone, Copy, Debug, PartialEq, Eq, Structural)]
pub struct Decimal {
    pub neg: bool,
    pub whole: u64,
    pub frac: u64,
    pub frac_digits: usize,
}

/// An angle as `degrees + minutes / 60`, negated when `negative`.
#[derive(Clone, Copy, Debug, PartialEq, Eq, Structural)]
pub struct Coord {
    pub negative: bool,
    pub degrees: u32,
    pub minutes: Decimal,
}

/// The fields of interest of a `GGA` sentence.
#[derive(Clone, Copy, Debug, PartialEq, Eq, Structural)]
pub struct Gga {
    /// UTC time of fix, `hhmmss` as an integer (e.g. `123519` = 12:35:19).
    pub utc: u32,
    pub fix: FixQuality,
    pub satellites: u8,
    /// Horizontal dilution of precision; lower is better.
    pub hdop: Decimal,
    /// Positive north.
    pub latitude: Coord,
    /// Positive east.
    pub longitude: Coord,
    /// Altitude above mean sea level, metres.
    pub altitude: Decimal,
}

/// The fields of interest of an `RMC` sentence.
#[derive(Clone, Copy, Debug, PartialEq, Eq, Structural)]
pub struct Rmc {
    /// UTC time of fix, `hhmmss` as an integer.
    pub utc: u32,
    /// UTC date, `ddmmyy` as an integer.
    pub date: u32,
    pub valid: bool,
    pub latitude: Coord,
    pub longitude: Coord,
    /// Speed over ground, knots.
    pub speed: Decimal,
    /// Course over ground, degrees clockwise from true north.
    pub course: Decimal,
}

/// `hhmmss.ss` as the number `hhmmss`, zero when it is not one.
pub open spec fn hhmmss_of(field: Seq<u8>) -> u32 {
    decimal_or_zero(split(field, 0x2E)[0], 0xFFFF_FFFF) as u32
}

/// The number that `[-]digits[.digits]` writes out. A part that is not a
/// number counts as zero; so does a part that is missing.
pub open spec fn decimal_of(field: Seq<u8>) -> Decimal {
    let neg = field.len() > 0 && field[0] == 0x2D;
    let parts = split(if neg {
        field.skip(1)
    } else {
        field
    }, 0x2E);
    let frac = if parts.len() > 1 {
        parts[1]
    } else {
        Seq::empty()
    };
    Decimal {
        neg,
        whole: decimal_or_zero(parts[0], 0xFFFF_FFFF_FFFF_FFFF) as u64,
        frac: decimal_or_zero(frac, 0xFFFF_FFFF_FFFF_FFFF) as u64,
        frac_digits: frac.len() as usize,
    }
}

pub open spec fn zero_decimal() -> Decimal {
    Decimal { neg: false, whole: 0, frac: 0, frac_digits: 0 }
}

/// Index of the first `.`, or the length.
pub open spec fn dot(field: Seq<u8>) -> nat {
    position(field, 0x2E)
}

/// The angle that an NMEA `ddmm.mmmm` or `dddmm.mmmm` field and a hemisphere
/// stand for. The two characters before the point start the minutes; a field
/// that has no room for them is zero.
pub open spec fn coord_of(field: Seq<u8>, hemisphere: Seq<u8>) -> Coord {
    if dot(field) < 2 {
        Coord { negative: false, degrees: 0, minutes: zero_decimal() }
    } else {
        Coord {
            negative: hemisphere == seq![0x53u8] || hemisphere == seq![0x57u8],
            degrees: decimal_or_zero(field.take(dot(field) - 2), 0xFFFF_FFFF) as u32,
            minutes: decimal_of(field.skip(dot(field) - 2)),
        }
    }
}

/// Whether the place where a coordinate divides into degrees and minutes is
/// not inside a character.
pub open spec fn coord_divides(field: Seq<u8>) -> bool {
    dot(field) >= 2 ==> vstd::utf8::is_char_boundary(field, dot(field) - 2)
}

/// `GGA` fields: `hhmmss.ss,lat,N,lon,E,fix,sats,hdop,alt,M,geoid,M,age,station`
pub open spec fn gga_of(f: Seq<Seq<u8>>) -> Option<Gga> {
    if f.len() < 9 {
        None
    } else {
        Some(
            Gga {
                utc: hhmmss_of(f[0]),
                fix: fix_of(f[5]),
                satellites: decimal_or_zero(f[6], 0xFF) as u8,
                hdop: decimal_of(f[7]),
                latitude: coord_of(f[1], f[2]),
                longitude: coord_of(f[3], f[4]),
                altitude: decimal_of(f[8]),
            },
        )
    }
}

/// `RMC` fields: `hhmmss.ss,A|V,lat,N,lon,E,speed_kn,course,ddmmyy,magvar,E,mode`
pub open spec fn rmc_of(f: Seq<Seq<u8>>) -> Option<Rmc> {
    if f.len() < 9 {
        None
    } else {
        Some(
            Rmc {
                utc: hhmmss_of(f[0]),
                date: decimal_or_zero(f[8], 0xFFFF_FFFF) as u32,
                valid: f[1] == seq![0x41u8],
                latitude: coord_of(f[2], f[3]),
                longitude: coord_of(f[4], f[5]),
                speed: decimal_of(f[6]),
                course: decimal_of(f[7]),
            },
        )
    }
}

/// [`split`] always gives at least one piece.
proof fn lemma_split_nonempty(s: Seq<u8>, sep: u8)
    ensures
        split(s, sep).len() >= 1,
{
    lemma_position(s, sep);
}

/// The first piece of [`split`] ends where the first separator stands.
proof fn lemma_split_first(s: Seq<u8>, sep: u8)
    ensures
        split(s, sep).len() >= 1,
        split(s, sep)[0] =~= s.take(position(s, sep) as int),
        split(s, sep).len() > 1 <==> position(s, sep) < s.len(),
        position(s, sep) < s.len() ==> split(s, sep).skip(1) =~= split(
            s.skip(position(s, sep) as int + 1),
            sep,
        ),
{
    lemma_position(s, sep);
    if position(s, sep) < s.len() {
        lemma_split_nonempty(s.skip(position(s, sep) as int + 1), sep);
    } else {
        assert(s.take(s.len() as int) =~= s);
    }
}

/// `hhmmss.ss` as the number `hhmmss`, zero when it is not one.
pub fn parse_hhmmss(field: &str) -> (v: u32)
    ensures
        v == hhmmss_of(field.spec_bytes()),
{
    let raw: &[u8] = field.as_bytes();
    let end: usize = find(raw, 0x2E);
    proof {
        lemma_split_first(raw@, 0x2E);
    }
    parse_or_zero(vstd::slice::slice_subrange(raw, 0, end), 0xFFFF_FFFF) as u32
}

/// Reads `[-]digits[.digits]`.
pub fn parse_decimal(field: &[u8]) -> (d: Decimal)
    ensures
        d == decimal_of(field@),
{
    let neg: bool = field.len() > 0 && field[0] == 0x2D;
    let body: &[u8] = if neg {
        vstd::slice::slice_subrange(field, 1, field.len())
    } else {
        field
    };
    assert(neg ==> body@ =~= field@.skip(1));
    let end: usize = find(body, 0x2E);
    let head: &[u8] = vstd::slice::slice_subrange(body, 0, end);
    let whole: u64 = parse_or_zero(head, 0xFFFF_FFFF_FFFF_FFFF);
    proof {
        lemma_split_first(body@, 0x2E);
    }
    if end == body.len() {
        assert(decimal_or_zero(Seq::empty(), 0xFFFF_FFFF_FFFF_FFFF) == 0);
        return Decimal { neg, whole, frac: 0, frac_digits: 0 };
    }
    let rest: &[u8] = vstd::slice::slice_subrange(body, end + 1, body.len());
    assert(rest@ =~= body@.skip(end as int + 1));
    let stop: usize = find(rest, 0x2E);
    let digits: &[u8] = vstd::slice::slice_subrange(rest, 0, stop);
    proof {
        lemma_split_first(rest@, 0x2E);
        assert(split(body@, 0x2E)[1] == split(body@, 0x2E).skip(1)[0]);
    }
    Decimal {
        neg,
        whole,
        frac: parse_or_zero(digits, 0xFFFF_FFFF_FFFF_FFFF),
        frac_digits: digits.len(),
    }
}

/// NMEA `ddmm.mmmm` / `dddmm.mmmm` and a hemisphere as an angle.
pub fn parse_coord(field: &str, hemisphere: &str) -> (c: Coord)
    requires
        coord_divides(field.spec_bytes()),
    ensures
        c == coord_of(field.spec_bytes(), hemisphere.spec_bytes()),
{
    let raw: &[u8] = field.as_bytes();
    let at: usize = find(raw, 0x2E);
    if at < 2 {
        return Coord {
            negative: false,
            degrees: 0,
            minutes: Decimal { neg: false, whole: 0, frac: 0, frac_digits: 0 },
        };
    }
    let deg: &[u8] = vstd::slice::slice_subrange(raw, 0, at - 2);
    let min: &[u8] = vstd::slice::slice_subrange(raw, at - 2, raw.len());
    assert(deg@ =~= raw@.take(at - 2));
    assert(min@ =~= raw@.skip(at - 2));
    let h: &[u8] = hemisphere.as_bytes();
    let negative: bool = h.len() == 1 && (h[0] == 0x53 || h[0] == 0x57);
    assert(h@.len() == 1 ==> h@ =~= seq![h@[0]]);
    Coord { negative, degrees: parse_or_zero(deg, 0xFFFF_FFFF) as u32, minutes: parse_decimal(min) }
}

/// Whether a coordinate field divides between characters.
pub fn divides(field: &str) -> (b: bool)
    ensures
        b == coord_divides(field.spec_bytes()),
{
    let at: usize = find(field.as_bytes(), 0x2E);
    at < 2 || field.is_char_boundary(at - 2)
}

/// What a sentence has to say.
#[derive(Clone, Copy, Debug, PartialEq, Eq, Structural)]
pub enum Reading {
    Gga(Gga),
    Rmc(Rmc),
    /// Another kind of sentence, or one with fields missing.
    Nothing,
}

/// The letters `GGA`.
pub open spec fn gga_kind() -> Seq<u8> {
    seq![0x47u8, 0x47u8, 0x41u8]
}

/// The letters `RMC`.
pub open spec fn rmc_kind() -> Seq<u8> {
    seq![0x52u8, 0x4Du8, 0x43u8]
}

/// The kind of a sentence, from its first field: the talker ID (`GP`, `GN`,
/// `GL`, ...) is the first two bytes and is skipped, where that leaves whole
/// characters.
pub open spec fn kind_of(first: Seq<u8>) -> Seq<u8> {
    if vstd::utf8::is_char_boundary(first, 2) {
        first.skip(2)
    } else {
        first
    }
}

/// The fields of a sentence behind the first.
pub open spec fn data_fields(sentence: Seq<u8>) -> Seq<Seq<u8>> {
    split(sentence, 0x2C).skip(1)
}

/// The kind of a sentence.
pub open spec fn sentence_kind(sentence: Seq<u8>) -> Seq<u8> {
    kind_of(split(sentence, 0x2C)[0])
}

/// What a sentence has to say.
pub open spec fn reading_of(sentence: Seq<u8>) -> Reading {
    if sentence_kind(sentence) == gga_kind() {
        match gga_of(data_fields(sentence)) {
            Some(g) => Reading::Gga(g),
            None => Reading::Nothing,
        }
    } else if sentence_kind(sentence) == rmc_kind() {
        match rmc_of(data_fields(sentence)) {
            Some(r) => Reading::Rmc(r),
            None => Reading::Nothing,
        }
    } else {
        Reading::Nothing
    }
}

/// Whether the coordinates that a sentence carries divide between characters.
pub open spec fn coords_divide(sentence: Seq<u8>) -> bool {
    let f = data_fields(sentence);
    if f.len() < 9 {
        true
    } else if sentence_kind(sentence) == gga_kind() {
        coord_divides(f[1]) && coord_divides(f[3])
    } else if sentence_kind(sentence) == rmc_kind() {
        coord_divides(f[2]) && coord_divides(f[4])
    } else {
        true
    }
}

/// Reads the fields of a `GGA` sentence.
pub fn parse_gga(f: &[&str]) -> (out: Option<Gga>)
    requires
        f@.len() >= 9 ==> coord_divides(f@[1].spec_bytes()) && coord_divides(f@[3].spec_bytes()),
    ensures
        out == gga_of(bytes_of(f@)),
{
    if f.len() < 9 {
        return None;
    }
    Some(
        Gga {
            utc: parse_hhmmss(f[0]),
            fix: FixQuality::from_field(f[5]),
            satellites: parse_or_zero(f[6].as_bytes(), 0xFF) as u8,
            hdop: parse_decimal(f[7].as_bytes()),
            latitude: parse_coord(f[1], f[2]),
            longitude: parse_coord(f[3], f[4]),
            altitude: parse_decimal(f[8].as_bytes()),
        },
    )
}

/// Reads the fields of an `RMC` sentence.
pub fn parse_rmc(f: &[&str]) -> (out: Option<Rmc>)
    requires
        f@.len() >= 9 ==> coord_divides(f@[2].spec_bytes()) && coord_divides(f@[4].spec_bytes()),
    ensures
        out == rmc_of(bytes_of(f@)),
{
    if f.len() < 9 {
        return None;
    }
    let status: &[u8] = f[1].as_bytes();
    let valid: bool = status.len() == 1 && status[0] == 0x41;
    assert(status@.len() == 1 ==> status@ =~= seq![status@[0]]);
    Some(
        Rmc {
            utc: parse_hhmmss(f[0]),
            date: parse_or_zero(f[8].as_bytes(), 0xFFFF_FFFF) as u32,
            valid,
            latitude: parse_coord(f[2], f[3]),
            longitude: parse_coord(f[4], f[5]),
            speed: parse_decimal(f[6].as_bytes()),
            course: parse_decimal(f[7].as_bytes()),
        },
    )
}

/// Whether the letters of `s` behind its first two bytes, or all of them where
/// that is not between characters, are `a`, `b`, `c`.
fn is_kind(s: &str, a: u8, b: u8, c: u8) -> (r: bool)
    ensures
        r == (kind_of(s.spec_bytes()) == seq![a, b, c]),
{
    let raw: &[u8] = s.as_bytes();
    let from: usize = if s.is_char_boundary(2) {
        2
    } else {
        0
    };
    proof {
        vstd::utf8::encode_utf8_valid_utf8(s@);
        reveal_with_fuel(vstd::utf8::is_char_boundary, 3);
        vstd::utf8::is_char_boundary_start_end_of_seq(raw@);
    }
    let ghost kind = kind_of(raw@);
    assert(kind =~= raw@.skip(from as int));
    let r: bool = raw.len() == from + 3 && raw[from] == a && raw[from + 1] == b && raw[from + 2]
        == c;
    proof {
        if r {
            assert(kind =~= seq![a, b, c]);
        } else if kind.len() == 3 {
            assert(kind[0] == raw@[from as int]);
            assert(kind[1] == raw@[from + 1]);
            assert(kind[2] == raw@[from + 2]);
        }
    }
    r
}

/// Reads a sentence.
pub fn read_sentence(sentence: &str) -> (out: Reading)
    requires
        coords_divide(sentence.spec_bytes()),
    ensures
        out == reading_of(sentence.spec_bytes()),
{
    let parts: Vec<&str> = split_str(sentence, 0x2C);
    proof {
        lemma_split_nonempty(sentence.spec_bytes(), 0x2C);
        assert(bytes_of(parts@)[0] == parts@[0].spec_bytes());
    }
    let fields: &[&str] = vstd::slice::slice_subrange(parts.as_slice(), 1, parts.len());
    assert(bytes_of(fields@) =~= data_fields(sentence.spec_bytes()));
    assert forall|i: int| 0 <= i < fields@.len() implies #[trigger] fields@[i].spec_bytes()
        == data_fields(sentence.spec_bytes())[i] by {
        assert(bytes_of(fields@)[i] == fields@[i].spec_bytes());
    }
    if is_kind(parts[0], 0x47, 0x47, 0x41) {
        match parse_gga(fields) {
            Some(g) => Reading::Gga(g),
            None => Reading::Nothing,
        }
    } else if is_kind(parts[0], 0x52, 0x4D, 0x43) {
        match parse_rmc(fields) {
            Some(r) => Reading::Rmc(r),
            None => Reading::Nothing,
        }
    } else {
        Reading::Nothing
    }
}

/// Whether every coordinate of a sentence divides between characters.
pub fn can_read(sentence: &str) -> (b: bool)
    ensures
        b == coords_divide(sentence.spec_bytes()),
{
    let parts: Vec<&str> = split_str(sentence, 0x2C);
    proof {
        lemma_split_nonempty(sentence.spec_bytes(), 0x2C);
    }
    let ghost f = data_fields(sentence.spec_bytes());
    assert(bytes_of(parts@)[0] == parts@[0].spec_bytes());
    if parts.len() < 10 {
        return true;
    }
    assert(f[1] == bytes_of(parts@)[2] && f[2] == bytes_of(parts@)[3] && f[3] == bytes_of(
        parts@,
    )[4] && f[4] == bytes_of(parts@)[5]);
    if is_kind(parts[0], 0x47, 0x47, 0x41) {
        divides(parts[2]) && divides(parts[4])
    } else if is_kind(parts[0], 0x52, 0x4D, 0x43) {
        divides(parts[3]) && divides(parts[5])
    } else {
        true
    }
}

/// The store after a reading that arrived at `now`.
pub open spec fn with_reading(t: Telemetry, r: Reading, now: u64) -> Telemetry {
    match r {
        Reading::Gga(g) => Telemetry { gga: Some(g), gnss_updated: Some(now), ..t },
        Reading::Rmc(m) => Telemetry { rmc: Some(m), gnss_updated: Some(now), ..t },
        Reading::Nothing => t,
    }
}

/// The fix quality last heard of, after a reading.
pub open spec fn fix_after(last: FixQuality, r: Reading) -> FixQuality {
    match r {
        Reading::Gga(g) => g.fix,
        _ => last,
    }
}

/// Whether a reading is worth telling: the fix quality is another than before.
pub open spec fn fix_changes(last: FixQuality, r: Reading) -> bool {
    fix_after(last, r) != last
}

/// Stores what a sentence that arrived at `now` has to say. Returns whether
/// the fix quality changed.
pub fn handle_sentence(
    sentence: &str,
    last_fix: &mut FixQuality,
    t: &mut Telemetry,
    now: u64,
) -> (changed: bool)
    requires
        coords_divide(sentence.spec_bytes()),
    ensures
        *final(t) == with_reading(*old(t), reading_of(sentence.spec_bytes()), now),
        *final(last_fix) == fix_after(*old(last_fix), reading_of(sentence.spec_bytes())),
        changed == fix_changes(*old(last_fix), reading_of(sentence.spec_bytes())),
{
    match read_sentence(sentence) {
        Reading::Gga(g) => {
            let changed: bool = g.fix != *last_fix;
            if changed {
                *last_fix = g.fix;
            }
            t.gga = Some(g);
            t.gnss_updated = Some(now);
            changed
        },
        Reading::Rmc(r) => {
            t.rmc = Some(r);
            t.gnss_updated = Some(now);
            false
        },
        Reading::Nothing => false,
    }
}

/// An ASCII character in front of text is text, and divides from it.
pub proof fn lemma_ascii_in_front(b: u8, t: Seq<u8>)
    requires
        b < 0x80,
        vstd::utf8::valid_utf8(t),
    ensures
        vstd::utf8::valid_utf8(seq![b] + t),
        forall|i: int|
            i > 0 ==> vstd::utf8::is_char_boundary(seq![b] + t, i)
                == #[trigger] vstd::utf8::is_char_boundary(t, i - 1),
{
    let s = seq![b] + t;
    assert(vstd::utf8::is_leading_byte_width_1(s[0]));
    assert(vstd::utf8::pop_first_scalar(s) =~= t);
}

/// The parts of a sentence behind a two-letter talker ID.
proof fn lemma_talker(x: u8, y: u8, rest: Seq<u8>)
    requires
        x < 0x80 && x != 0x2C,
        y < 0x80 && y != 0x2C,
        vstd::utf8::valid_utf8(rest),
    ensures
        sentence_kind(seq![x, y] + rest) == split(rest, 0x2C)[0],
        data_fields(seq![x, y] + rest) == split(rest, 0x2C).skip(1),
{
    let s = seq![x, y] + rest;
    let p = position(rest, 0x2C) as int;
    lemma_position(rest, 0x2C);
    lemma_position_is(s, 0x2C, p + 2);
    lemma_split_first(rest, 0x2C);
    lemma_split_first(s, 0x2C);
    let head = rest.take(p);
    if p < rest.len() {
        lemma_ascii_boundary(rest, p);
        vstd::utf8::valid_utf8_split(rest, p);
        assert(rest.subrange(0, p) =~= head);
        assert(s.skip(p + 3) =~= rest.skip(p + 1));
    } else {
        assert(head =~= rest);
        assert(split(s, 0x2C).skip(1) =~= split(rest, 0x2C).skip(1));
    }
    let first = s.take(p + 2);
    lemma_ascii_in_front(y, head);
    lemma_ascii_in_front(x, seq![y] + head);
    assert(first =~= seq![x] + (seq![y] + head));
    assert(vstd::utf8::is_char_boundary(head, 0));
    assert(vstd::utf8::is_char_boundary(seq![y] + head, 1));
    assert(vstd::utf8::is_char_boundary(first, 2));
    assert(first.skip(2) =~= head);
}

/// Whichever satellites the receiver heard, a sentence says the same: the two
/// letters of the talker ID do not matter.
pub proof fn law_talker_does_not_matter(a: u8, b: u8, x: u8, y: u8, rest: Seq<u8>)
    requires
        a < 0x80 && a != 0x2C,
        b < 0x80 && b != 0x2C,
        x < 0x80 && x != 0x2C,
        y < 0x80 && y != 0x2C,
        vstd::utf8::valid_utf8(rest),
    ensures
        reading_of(seq![a, b] + rest) == reading_of(seq![x, y] + rest),
{
    lemma_talker(a, b, rest);
    lemma_talker(x, y, rest);
}

/// The numbers that the receiver answers to.
pub proof fn law_receiver_is_addressed()
    ensures
        ADDRESS == 0x42,
        REG_BYTES_AVAILABLE == 0xFD,
        REG_DATA_STREAM == 0xFF,
        POLL_INTERVAL_MS == 100,
        RETRY_INTERVAL_MS == 250,
        MAX_SENTENCE == 96,
        CHUNK == 64,
{
}

} // verus!
