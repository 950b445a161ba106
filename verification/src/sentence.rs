//! Sentences as a receiver writes them, and what is read of them.

use vstd::prelude::*;
use crate::gnss::{
    coord_divides, coord_of, coords_divide, data_fields, decimal_of, fix_of, hhmmss_of,
    lemma_ascii_in_front, reading_of, sentence_kind, Coord, Decimal, FixQuality, Gga, Reading, Rmc,
};
use crate::text::{
    decimal_or_zero, joined_by, lacks, law_joined_parts_split, law_number_reads_back,
    law_only_digits_make_a_number, lemma_position, lemma_position_is, lemma_wide, position, pow10,
    split, unsigned, wide,
};

verus! {

/// A decimal number as it is written, with `places` digits before the point.
pub open spec fn decimal_text(d: Decimal, places: nat) -> Seq<u8> {
    (if d.neg {
        seq![0x2Du8]
    } else {
        Seq::empty()
    }) + wide(d.whole as nat, places) + (if d.frac_digits == 0 {
        Seq::empty()
    } else {
        seq![0x2Eu8] + wide(d.frac as nat, d.frac_digits as nat)
    })
}

/// Whether a decimal number can be written with `places` digits before the
/// point.
pub open spec fn can_write(d: Decimal, places: nat) -> bool {
    &&& places > 0
    &&& d.whole < pow10(places)
    &&& d.frac < pow10(d.frac_digits as nat)
}

/// A coordinate as it is written: degrees in `places` digits, whole minutes in
/// two.
pub open spec fn coord_text(c: Coord, places: nat) -> Seq<u8> {
    wide(c.degrees as nat, places) + decimal_text(c.minutes, 2)
}

/// Whether a coordinate can be written so.
pub open spec fn can_write_coord(c: Coord, places: nat) -> bool {
    &&& places > 0
    &&& c.degrees < pow10(places)
    &&& can_write(c.minutes, 2)
    &&& !c.minutes.neg
}

/// The digits of a decimal number, without its sign, in one or two parts.
spec fn number_parts(d: Decimal, places: nat) -> Seq<Seq<u8>> {
    if d.frac_digits == 0 {
        seq![wide(d.whole as nat, places)]
    } else {
        seq![wide(d.whole as nat, places), wide(d.frac as nat, d.frac_digits as nat)]
    }
}

proof fn lemma_number_parts(d: Decimal, places: nat)
    requires
        can_write(d, places),
    ensures
        split(decimal_text(Decimal { neg: false, ..d }, places), 0x2E) == number_parts(d, places),
{
    let w = wide(d.whole as nat, places);
    let f = wide(d.frac as nat, d.frac_digits as nat);
    lemma_wide(d.whole as nat, places);
    lemma_wide(d.frac as nat, d.frac_digits as nat);
    let parts = number_parts(d, places);
    assert forall|i: int| 0 <= i < parts.len() implies lacks(#[trigger] parts[i], 0x2E) by {
        assert(lacks(w, 0x2E));
        assert(lacks(f, 0x2E));
    }
    law_joined_parts_split(parts, 0x2E);
    reveal_with_fuel(joined_by, 3);
    if d.frac_digits == 0 {
        assert(joined_by(parts, 0x2E) == w);
    } else {
        assert(parts.drop_first() =~= seq![f]);
        assert(joined_by(parts, 0x2E) =~= w + seq![0x2Eu8] + f);
    }
    assert(decimal_text(Decimal { neg: false, ..d }, places) =~= joined_by(parts, 0x2E));
}

/// A decimal number reads back as it was written: sign, whole part, fraction
/// and number of digits.
pub proof fn law_decimal_reads_back(d: Decimal, places: nat)
    requires
        can_write(d, places),
    ensures
        decimal_of(decimal_text(d, places)) == d,
{
    let text = decimal_text(d, places);
    let plain = decimal_text(Decimal { neg: false, ..d }, places);
    let max = 0xFFFF_FFFF_FFFF_FFFFnat;
    lemma_number_parts(d, places);
    lemma_wide(d.whole as nat, places);
    assert(0x30 <= wide(d.whole as nat, places)[0] <= 0x39);
    if d.neg {
        assert(text[0] == 0x2D);
        assert(text.skip(1) =~= plain);
    } else {
        assert(text[0] == wide(d.whole as nat, places)[0]);
    }
    law_number_reads_back(d.whole as nat, places, max);
    law_number_reads_back(d.frac as nat, d.frac_digits as nat, max);
    lemma_wide(d.frac as nat, d.frac_digits as nat);
    assert(decimal_or_zero(Seq::empty(), max) == 0);
    if d.frac_digits == 0 {
        assert(pow10(0) == 1);
    }
}

/// The parts of a decimal number are read each on its own, and count as zero
/// where they are not numbers; what follows a second point is not read.
pub proof fn law_decimal_parts_stand_alone(
    neg: bool,
    whole: Seq<u8>,
    frac: Seq<u8>,
    rest: Seq<Seq<u8>>,
)
    requires
        lacks(whole, 0x2E),
        lacks(frac, 0x2E),
        frac.len() <= usize::MAX,
        forall|i: int| 0 <= i < rest.len() ==> lacks(#[trigger] rest[i], 0x2E),
        !neg ==> whole.len() == 0 || whole[0] != 0x2D,
    ensures
        ({
            let sign = if neg {
                seq![0x2Du8]
            } else {
                Seq::empty()
            };
            let max = 0xFFFF_FFFF_FFFF_FFFFnat;
            let d = decimal_of(sign + joined_by(seq![whole, frac] + rest, 0x2E));
            let i = decimal_of(sign + whole);
            &&& d.neg == neg && i.neg == neg
            &&& d.whole == decimal_or_zero(whole, max) && i.whole == d.whole
            &&& d.frac == decimal_or_zero(frac, max) && i.frac == 0
            &&& d.frac_digits == frac.len() && i.frac_digits == 0
        }),
{
    let sign = if neg {
        seq![0x2Du8]
    } else {
        Seq::empty()
    };
    let max = 0xFFFF_FFFF_FFFF_FFFFnat;
    let parts = seq![whole, frac] + rest;
    let body = joined_by(parts, 0x2E);
    assert forall|i: int| 0 <= i < parts.len() implies lacks(#[trigger] parts[i], 0x2E) by {
        if i >= 2 {
            assert(parts[i] == rest[i - 2]);
        }
    }
    law_joined_parts_split(parts, 0x2E);
    assert(lacks(seq![whole][0], 0x2E));
    law_joined_parts_split(seq![whole], 0x2E);
    assert(joined_by(seq![whole], 0x2E) == whole);
    assert(decimal_or_zero(Seq::empty(), max) == 0);
    if neg {
        assert((sign + body).skip(1) =~= body);
        assert((sign + whole).skip(1) =~= whole);
    } else {
        assert(sign + body =~= body);
        assert(sign + whole =~= whole);
        if whole.len() > 0 {
            assert(body[0] == whole[0]);
        } else {
            assert(body[0] == 0x2E);
        }
    }
}

/// A coordinate reads back as it was written, south and west negative.
pub proof fn law_coord_reads_back(c: Coord, places: nat, hemisphere: Seq<u8>)
    requires
        can_write_coord(c, places),
    ensures
        coord_of(coord_text(c, places), hemisphere) == (Coord {
            negative: hemisphere == seq![0x53u8] || hemisphere == seq![0x57u8],
            ..c
        }),
{
    let text = coord_text(c, places);
    let tail = decimal_text(c.minutes, 2);
    let n = places as int;
    lemma_wide(c.degrees as nat, places);
    lemma_wide(c.minutes.whole as nat, 2);
    lemma_wide(c.minutes.frac as nat, c.minutes.frac_digits as nat);
    assert forall|i: int| 0 <= i < n + 2 implies text[i] != 0x2E by {
        if i < n {
            assert(text[i] == wide(c.degrees as nat, places)[i]);
        } else {
            assert(text[i] == wide(c.minutes.whole as nat, 2)[i - n]);
        }
    }
    if c.minutes.frac_digits > 0 {
        assert(text[n + 2] == 0x2E);
    }
    lemma_position_is(text, 0x2E, n + 2);
    assert(text.take(n) =~= wide(c.degrees as nat, places));
    assert(text.skip(n) =~= tail);
    law_number_reads_back(c.degrees as nat, places, 0xFFFF_FFFF);
    law_decimal_reads_back(c.minutes, 2);
}

/// Whatever a coordinate is made of, the two characters before its point start
/// the minutes and what stands before them is the degrees; one without room for
/// minutes is zero, wherever it lies.
pub proof fn law_coord_parts_stand_alone(
    degrees: Seq<u8>,
    m1: u8,
    m2: u8,
    tail: Seq<u8>,
    short: Seq<u8>,
    hemisphere: Seq<u8>,
)
    requires
        lacks(degrees, 0x2E),
        m1 != 0x2E && m2 != 0x2E,
        tail.len() == 0 || tail[0] == 0x2E,
        position(short, 0x2E) < 2,
    ensures
        ({
            let c = coord_of(degrees + seq![m1, m2] + tail, hemisphere);
            &&& c.degrees == decimal_or_zero(degrees, 0xFFFF_FFFF)
            &&& c.minutes == decimal_of(seq![m1, m2] + tail)
            &&& c.negative <==> hemisphere == seq![0x53u8] || hemisphere == seq![0x57u8]
        }),
        ({
            let c = coord_of(short, hemisphere);
            &&& !c.negative && c.degrees == 0
            &&& !c.minutes.neg && c.minutes.whole == 0 && c.minutes.frac == 0
            &&& c.minutes.frac_digits == 0
        }),
{
    let text = degrees + seq![m1, m2] + tail;
    let n = degrees.len() as int;
    assert forall|i: int| 0 <= i < n + 2 implies text[i] != 0x2E by {
        if i < n {
            assert(text[i] == degrees[i]);
        }
    }
    if tail.len() > 0 {
        assert(text[n + 2] == tail[0]);
    }
    lemma_position_is(text, 0x2E, n + 2);
    assert(text.take(n) =~= degrees);
    assert(text.skip(n) =~= seq![m1, m2] + tail);
}

/// A sentence: two letters of talker, three of kind, and the fields, with
/// commas between.
pub open spec fn sentence(x: u8, y: u8, kind: Seq<u8>, fields: Seq<Seq<u8>>) -> Seq<u8> {
    joined_by(seq![seq![x, y] + kind] + fields, 0x2C)
}

proof fn lemma_kind_and_fields(x: u8, y: u8, a: u8, b: u8, c: u8, fields: Seq<Seq<u8>>)
    requires
        x < 0x80 && x != 0x2C,
        y < 0x80 && y != 0x2C,
        a < 0x80 && a != 0x2C,
        b < 0x80 && b != 0x2C,
        c < 0x80 && c != 0x2C,
        forall|i: int| 0 <= i < fields.len() ==> lacks(#[trigger] fields[i], 0x2C),
    ensures
        sentence_kind(sentence(x, y, seq![a, b, c], fields)) == seq![a, b, c],
        data_fields(sentence(x, y, seq![a, b, c], fields)) == fields,
{
    let kind = seq![a, b, c];
    let first = seq![x, y] + kind;
    let parts = seq![first] + fields;
    assert forall|i: int| 0 <= i < parts.len() implies lacks(#[trigger] parts[i], 0x2C) by {
        if i > 0 {
            assert(parts[i] == fields[i - 1]);
        }
    }
    law_joined_parts_split(parts, 0x2C);
    assert(parts.skip(1) =~= fields);
    let e = Seq::<u8>::empty();
    lemma_ascii_in_front(c, e);
    lemma_ascii_in_front(b, seq![c] + e);
    lemma_ascii_in_front(a, seq![b] + (seq![c] + e));
    let tail = seq![a] + (seq![b] + (seq![c] + e));
    assert(tail =~= kind);
    lemma_ascii_in_front(y, kind);
    lemma_ascii_in_front(x, seq![y] + kind);
    assert(first =~= seq![x] + (seq![y] + kind));
    assert(vstd::utf8::is_char_boundary(kind, 0));
    assert(vstd::utf8::is_char_boundary(seq![y] + kind, 1));
    assert(vstd::utf8::is_char_boundary(first, 2));
    assert(first.skip(2) =~= kind);
}

/// Whether there is room for whole minutes before the point of a coordinate.
pub open spec fn has_minutes(field: Seq<u8>) -> bool {
    position(field, 0x2E) >= 2
}

/// Each field of a `GGA` sentence says its own thing, whatever the others are:
/// `time,lat,N|S,lon,E|W,fix,sats,hdop,alt` and what follows.
pub proof fn law_gga_fields_keep_their_places(
    x: u8,
    y: u8,
    time: Seq<u8>,
    lat: Seq<u8>,
    ns: Seq<u8>,
    lon: Seq<u8>,
    ew: Seq<u8>,
    fix: Seq<u8>,
    sats: Seq<u8>,
    hdop: Seq<u8>,
    alt: Seq<u8>,
    rest: Seq<Seq<u8>>,
)
    requires
        x < 0x80 && x != 0x2C,
        y < 0x80 && y != 0x2C,
        lacks(time, 0x2C),
        lacks(lat, 0x2C),
        lacks(ns, 0x2C),
        lacks(lon, 0x2C),
        lacks(ew, 0x2C),
        lacks(fix, 0x2C),
        lacks(sats, 0x2C),
        lacks(hdop, 0x2C),
        lacks(alt, 0x2C),
        forall|i: int| 0 <= i < rest.len() ==> lacks(#[trigger] rest[i], 0x2C),
    ensures
        ({
            let text = sentence(
                x,
                y,
                seq![0x47u8, 0x47u8, 0x41u8],
                seq![time, lat, ns, lon, ew, fix, sats, hdop, alt] + rest,
            );
            &&& reading_of(text) is Gga
            &&& ({
                let g = reading_of(text)->Gga_0;
                &&& g.utc == hhmmss_of(time)
                &&& g.fix == fix_of(fix)
                &&& g.satellites == decimal_or_zero(sats, 0xFF)
                &&& g.hdop == decimal_of(hdop)
                &&& g.latitude == coord_of(lat, ns)
                &&& g.longitude == coord_of(lon, ew)
                &&& g.altitude == decimal_of(alt)
                &&& g.latitude.negative <==> (ns == seq![0x53u8] || ns == seq![0x57u8])
                    && has_minutes(lat)
                &&& g.longitude.negative <==> (ew == seq![0x57u8] || ew == seq![0x53u8])
                    && has_minutes(lon)
            })
        }),
{
    let fields = seq![time, lat, ns, lon, ew, fix, sats, hdop, alt] + rest;
    assert forall|i: int| 0 <= i < fields.len() implies lacks(#[trigger] fields[i], 0x2C) by {
        if i >= 9 {
            assert(fields[i] == rest[i - 9]);
        }
    }
    lemma_kind_and_fields(x, y, 0x47, 0x47, 0x41, fields);
}

/// Each field of an `RMC` sentence says its own thing, whatever the others are:
/// `time,A|V,lat,N|S,lon,E|W,speed,course,date` and what follows.
pub proof fn law_rmc_fields_keep_their_places(
    x: u8,
    y: u8,
    time: Seq<u8>,
    status: Seq<u8>,
    lat: Seq<u8>,
    ns: Seq<u8>,
    lon: Seq<u8>,
    ew: Seq<u8>,
    speed: Seq<u8>,
    course: Seq<u8>,
    date: Seq<u8>,
    rest: Seq<Seq<u8>>,
)
    requires
        x < 0x80 && x != 0x2C,
        y < 0x80 && y != 0x2C,
        lacks(time, 0x2C),
        lacks(status, 0x2C),
        lacks(lat, 0x2C),
        lacks(ns, 0x2C),
        lacks(lon, 0x2C),
        lacks(ew, 0x2C),
        lacks(speed, 0x2C),
        lacks(course, 0x2C),
        lacks(date, 0x2C),
        forall|i: int| 0 <= i < rest.len() ==> lacks(#[trigger] rest[i], 0x2C),
    ensures
        ({
            let text = sentence(
                x,
                y,
                seq![0x52u8, 0x4Du8, 0x43u8],
                seq![time, status, lat, ns, lon, ew, speed, course, date] + rest,
            );
            &&& reading_of(text) is Rmc
            &&& ({
                let r = reading_of(text)->Rmc_0;
                &&& r.utc == hhmmss_of(time)
                &&& r.valid <==> status == seq![0x41u8]
                &&& r.latitude == coord_of(lat, ns)
                &&& r.longitude == coord_of(lon, ew)
                &&& r.speed == decimal_of(speed)
                &&& r.course == decimal_of(course)
                &&& r.date == decimal_or_zero(date, 0xFFFF_FFFF)
                &&& r.latitude.negative <==> (ns == seq![0x53u8] || ns == seq![0x57u8])
                    && has_minutes(lat)
                &&& r.longitude.negative <==> (ew == seq![0x57u8] || ew == seq![0x53u8])
                    && has_minutes(lon)
            })
        }),
{
    let fields = seq![time, status, lat, ns, lon, ew, speed, course, date] + rest;
    assert forall|i: int| 0 <= i < fields.len() implies lacks(#[trigger] fields[i], 0x2C) by {
        if i >= 9 {
            assert(fields[i] == rest[i - 9]);
        }
    }
    lemma_kind_and_fields(x, y, 0x52, 0x4D, 0x43, fields);
}

/// A coordinate divides unless the second byte before its point goes on with a
/// character that began before it.
pub proof fn law_coordinate_divides(field: Seq<u8>)
    requires
        vstd::utf8::valid_utf8(field),
    ensures
        coord_divides(field) <==> {
            let p = position(field, 0x2E);
            p >= 2 ==> !(0x80 <= field[p - 2] <= 0xBF)
        },
{
    let p = position(field, 0x2E);
    lemma_position(field, 0x2E);
    if p >= 2 {
        let b = field[p - 2];
        vstd::utf8::is_char_boundary_iff_not_is_continuation_byte(field, p - 2);
        assert(vstd::utf8::is_continuation_byte(b) <==> 0x80 <= b <= 0xBF);
    }
}

/// A sentence can be read when its coordinates divide: the second and fourth
/// field of a whole `GGA` sentence, the third and fifth of a whole `RMC`. Every
/// other sentence can be read.
pub proof fn law_sentence_can_be_read(
    x: u8,
    y: u8,
    a: u8,
    b: u8,
    c: u8,
    fields: Seq<Seq<u8>>,
)
    requires
        x < 0x80 && x != 0x2C,
        y < 0x80 && y != 0x2C,
        a < 0x80 && a != 0x2C,
        b < 0x80 && b != 0x2C,
        c < 0x80 && c != 0x2C,
        forall|i: int| 0 <= i < fields.len() ==> lacks(#[trigger] fields[i], 0x2C),
    ensures
        ({
            let gga = a == 0x47 && b == 0x47 && c == 0x41;
            let rmc = a == 0x52 && b == 0x4D && c == 0x43;
            coords_divide(sentence(x, y, seq![a, b, c], fields)) <==> {
                let whole = fields.len() >= 9;
                &&& gga && whole ==> coord_divides(fields[1]) && coord_divides(fields[3])
                &&& rmc && whole ==> coord_divides(fields[2]) && coord_divides(fields[4])
            }
        }),
{
    lemma_kind_and_fields(x, y, a, b, c, fields);
    lemma_kind_letters(a, b, c);
}

proof fn lemma_kind_letters(a: u8, b: u8, c: u8)
    ensures
        seq![a, b, c] == seq![0x47u8, 0x47u8, 0x41u8] <==> a == 0x47 && b == 0x47 && c == 0x41,
        seq![a, b, c] == seq![0x52u8, 0x4Du8, 0x43u8] <==> a == 0x52 && b == 0x4D && c == 0x43,
{
    let kind = seq![a, b, c];
    let gga = seq![0x47u8, 0x47u8, 0x41u8];
    let rmc = seq![0x52u8, 0x4Du8, 0x43u8];
    if kind == gga {
        assert(kind[0] == gga[0] && kind[1] == gga[1] && kind[2] == gga[2]);
    }
    if kind == rmc {
        assert(kind[0] == rmc[0] && kind[1] == rmc[1] && kind[2] == rmc[2]);
    }
}

/// A sentence of another kind, or with fields missing, says nothing.
pub proof fn law_other_sentences_say_nothing(
    x: u8,
    y: u8,
    a: u8,
    b: u8,
    c: u8,
    fields: Seq<Seq<u8>>,
)
    requires
        x < 0x80 && x != 0x2C,
        y < 0x80 && y != 0x2C,
        a < 0x80 && a != 0x2C,
        b < 0x80 && b != 0x2C,
        c < 0x80 && c != 0x2C,
        forall|i: int| 0 <= i < fields.len() ==> lacks(#[trigger] fields[i], 0x2C),
    ensures
        ({
            let r = reading_of(sentence(x, y, seq![a, b, c], fields));
            &&& r == Reading::Nothing <==> fields.len() < 9 || !((a == 0x47 && b == 0x47 && c
                == 0x41) || (a == 0x52 && b == 0x4D && c == 0x43))
        }),
{
    lemma_kind_and_fields(x, y, a, b, c, fields);
    lemma_kind_letters(a, b, c);
}

/// The number of a fix quality in a sentence.
pub open spec fn fix_number(fix: FixQuality) -> nat {
    match fix {
        FixQuality::NoFix => 0,
        FixQuality::Gnss => 1,
        FixQuality::Dgnss => 2,
        FixQuality::Other(n) => n as nat,
    }
}

/// Time of day with hundredths, as it is written.
pub open spec fn time_text(utc: u32, hundredths: nat, places: nat) -> Seq<u8> {
    wide(utc as nat, places) + seq![0x2Eu8] + wide(hundredths, 2)
}

proof fn lemma_time(utc: u32, hundredths: nat, places: nat)
    requires
        places > 0,
        utc < pow10(places),
        hundredths < 100,
    ensures
        hhmmss_of(time_text(utc, hundredths, places)) == utc,
        lacks(time_text(utc, hundredths, places), 0x2C),
{
    let w = wide(utc as nat, places);
    let h = wide(hundredths, 2);
    assert(pow10(2) == 100) by {
        reveal_with_fuel(pow10, 3);
    }
    lemma_wide(utc as nat, places);
    lemma_wide(hundredths, 2);
    let parts = seq![w, h];
    assert forall|i: int| 0 <= i < parts.len() implies lacks(#[trigger] parts[i], 0x2E) by {
        assert(lacks(w, 0x2E) && lacks(h, 0x2E));
    }
    law_joined_parts_split(parts, 0x2E);
    reveal_with_fuel(joined_by, 3);
    assert(parts.drop_first() =~= seq![h]);
    assert(joined_by(parts, 0x2E) =~= time_text(utc, hundredths, places));
    law_number_reads_back(utc as nat, places, 0xFFFF_FFFF);
}

proof fn lemma_decimal_lacks_comma(d: Decimal, places: nat)
    requires
        can_write(d, places),
    ensures
        lacks(decimal_text(d, places), 0x2C),
{
    lemma_wide(d.whole as nat, places);
    lemma_wide(d.frac as nat, d.frac_digits as nat);
}

proof fn lemma_coord_lacks_comma(c: Coord, places: nat)
    requires
        can_write_coord(c, places),
    ensures
        lacks(coord_text(c, places), 0x2C),
{
    lemma_wide(c.degrees as nat, places);
    lemma_decimal_lacks_comma(c.minutes, 2);
}

/// The letter of a latitude.
pub open spec fn north_south(c: Coord) -> Seq<u8> {
    if c.negative {
        seq![0x53u8]
    } else {
        seq![0x4Eu8]
    }
}

/// The letter of a longitude.
pub open spec fn east_west(c: Coord) -> Seq<u8> {
    if c.negative {
        seq![0x57u8]
    } else {
        seq![0x45u8]
    }
}

/// A `GGA` sentence with the given values, whole numbers in `places` digits.
pub open spec fn gga_text(x: u8, y: u8, g: Gga, hundredths: nat, places: nat) -> Seq<u8> {
    sentence(
        x,
        y,
        seq![0x47u8, 0x47u8, 0x41u8],
        seq![
            time_text(g.utc, hundredths, places),
            coord_text(g.latitude, places),
            north_south(g.latitude),
            coord_text(g.longitude, places),
            east_west(g.longitude),
            wide(fix_number(g.fix), places),
            wide(g.satellites as nat, places),
            decimal_text(g.hdop, places),
            decimal_text(g.altitude, places),
        ],
    )
}

/// A time is the number before its point, with or without a fraction behind it.
pub proof fn law_time_is_the_whole_part(whole: Seq<u8>, rest: Seq<u8>)
    requires
        lacks(whole, 0x2E),
    ensures
        hhmmss_of(whole) == decimal_or_zero(whole, 0xFFFF_FFFF),
        hhmmss_of(whole + seq![0x2Eu8] + rest) == decimal_or_zero(whole, 0xFFFF_FFFF),
{
    let text = whole + seq![0x2Eu8] + rest;
    let n = whole.len() as int;
    assert forall|i: int| 0 <= i < n implies text[i] != 0x2E by {
        assert(text[i] == whole[i]);
    }
    assert(text[n] == 0x2E);
    lemma_position_is(text, 0x2E, n);
    lemma_position_is(whole, 0x2E, n);
    assert(text.take(n) =~= whole);
    assert(split(text, 0x2E)[0] =~= whole);
    assert(split(whole, 0x2E)[0] =~= whole);
}

/// The fix quality is the number that the receiver gives: none, by satellites
/// alone, with corrections, or whatever else it knows. A field that is no such
/// number stands for no fix.
pub proof fn law_fix_is_the_number_given(n: nat, places: nat, field: Seq<u8>)
    requires
        places > 0,
        n < pow10(places),
    ensures
        fix_of(wide(n, places)) == (if n == 1 {
            FixQuality::Gnss
        } else if n == 2 {
            FixQuality::Dgnss
        } else if 3 <= n <= 255 {
            FixQuality::Other(n as u8)
        } else {
            FixQuality::NoFix
        }),
        fix_of(field) != FixQuality::NoFix ==> field.len() > 0 && forall|i: int|
            1 <= i < field.len() ==> 0x30 <= #[trigger] field[i] <= 0x39,
        field.len() > 0 && !(0x30 <= field[0] <= 0x39) && field[0] != 0x2B ==> fix_of(field)
            == FixQuality::NoFix,
        fix_of(Seq::empty()) == FixQuality::NoFix,
{
    law_number_reads_back(n, places, 0xFF);
    if unsigned(field, 10, 0xFF) is Some {
        law_only_digits_make_a_number(field, 0xFF);
    }
}

/// What a `GGA` sentence says is read back as it was written.
pub proof fn law_gga_reads_back(x: u8, y: u8, g: Gga, hundredths: nat, places: nat)
    requires
        x < 0x80 && x != 0x2C,
        y < 0x80 && y != 0x2C,
        places > 0,
        g.utc < pow10(places),
        hundredths < 100,
        fix_number(g.fix) < pow10(places),
        g.fix matches FixQuality::Other(n) ==> n > 2,
        g.satellites < pow10(places),
        can_write(g.hdop, places),
        can_write(g.altitude, places),
        can_write_coord(g.latitude, places),
        can_write_coord(g.longitude, places),
    ensures
        reading_of(gga_text(x, y, g, hundredths, places)) == Reading::Gga(g),
{
    let e = Seq::<Seq<u8>>::empty();
    lemma_time(g.utc, hundredths, places);
    lemma_coord_lacks_comma(g.latitude, places);
    lemma_coord_lacks_comma(g.longitude, places);
    lemma_decimal_lacks_comma(g.hdop, places);
    lemma_decimal_lacks_comma(g.altitude, places);
    lemma_wide(fix_number(g.fix), places);
    lemma_wide(g.satellites as nat, places);
    let ns = north_south(g.latitude);
    let ew = east_west(g.longitude);
    let fields = seq![
        time_text(g.utc, hundredths, places),
        coord_text(g.latitude, places),
        ns,
        coord_text(g.longitude, places),
        ew,
        wide(fix_number(g.fix), places),
        wide(g.satellites as nat, places),
        decimal_text(g.hdop, places),
        decimal_text(g.altitude, places),
    ];
    law_gga_fields_keep_their_places(
        x,
        y,
        fields[0],
        fields[1],
        ns,
        fields[3],
        ew,
        fields[5],
        fields[6],
        fields[7],
        fields[8],
        e,
    );
    assert(fields + e =~= fields);
    law_number_reads_back(fix_number(g.fix), places, 0xFF);
    law_number_reads_back(g.satellites as nat, places, 0xFF);
    assert(ns[0] == 0x53 || ns[0] == 0x4E);
    assert(ew[0] == 0x57 || ew[0] == 0x45);
    assert(seq![0x53u8][0] == 0x53 && seq![0x57u8][0] == 0x57);
    law_coord_reads_back(g.latitude, places, ns);
    law_coord_reads_back(g.longitude, places, ew);
    law_decimal_reads_back(g.hdop, places);
    law_decimal_reads_back(g.altitude, places);
}

/// An `RMC` sentence with the given values, whole numbers in `places` digits.
pub open spec fn rmc_text(x: u8, y: u8, r: Rmc, hundredths: nat, places: nat) -> Seq<u8> {
    sentence(
        x,
        y,
        seq![0x52u8, 0x4Du8, 0x43u8],
        seq![
            time_text(r.utc, hundredths, places),
            if r.valid {
                seq![0x41u8]
            } else {
                seq![0x56u8]
            },
            coord_text(r.latitude, places),
            north_south(r.latitude),
            coord_text(r.longitude, places),
            east_west(r.longitude),
            decimal_text(r.speed, places),
            decimal_text(r.course, places),
            wide(r.date as nat, places),
        ],
    )
}

/// What an `RMC` sentence says is read back as it was written.
pub proof fn law_rmc_reads_back(x: u8, y: u8, r: Rmc, hundredths: nat, places: nat)
    requires
        x < 0x80 && x != 0x2C,
        y < 0x80 && y != 0x2C,
        places > 0,
        r.utc < pow10(places),
        hundredths < 100,
        r.date < pow10(places),
        can_write(r.speed, places),
        can_write(r.course, places),
        can_write_coord(r.latitude, places),
        can_write_coord(r.longitude, places),
    ensures
        reading_of(rmc_text(x, y, r, hundredths, places)) == Reading::Rmc(r),
{
    let e = Seq::<Seq<u8>>::empty();
    lemma_time(r.utc, hundredths, places);
    lemma_coord_lacks_comma(r.latitude, places);
    lemma_coord_lacks_comma(r.longitude, places);
    lemma_decimal_lacks_comma(r.speed, places);
    lemma_decimal_lacks_comma(r.course, places);
    lemma_wide(r.date as nat, places);
    let status = if r.valid {
        seq![0x41u8]
    } else {
        seq![0x56u8]
    };
    let ns = north_south(r.latitude);
    let ew = east_west(r.longitude);
    let fields = seq![
        time_text(r.utc, hundredths, places),
        status,
        coord_text(r.latitude, places),
        ns,
        coord_text(r.longitude, places),
        ew,
        decimal_text(r.speed, places),
        decimal_text(r.course, places),
        wide(r.date as nat, places),
    ];
    law_rmc_fields_keep_their_places(
        x,
        y,
        fields[0],
        status,
        fields[2],
        ns,
        fields[4],
        ew,
        fields[6],
        fields[7],
        fields[8],
        e,
    );
    assert(fields + e =~= fields);
    law_number_reads_back(r.date as nat, places, 0xFFFF_FFFF);
    assert(status[0] == 0x41 || status[0] == 0x56);
    assert(ns[0] == 0x53 || ns[0] == 0x4E);
    assert(ew[0] == 0x57 || ew[0] == 0x45);
    assert(seq![0x41u8][0] == 0x41 && seq![0x53u8][0] == 0x53 && seq![0x57u8][0] == 0x57);
    law_coord_reads_back(r.latitude, places, ns);
    law_coord_reads_back(r.longitude, places, ew);
    law_decimal_reads_back(r.speed, places);
    law_decimal_reads_back(r.course, places);
}

} // verus!
