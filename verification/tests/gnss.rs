use h753zi_telemetry::gnss::{
    can_read, divides, handle_sentence, parse_coord, parse_decimal, parse_gga, parse_hhmmss,
    parse_rmc, read_sentence, Coord, Decimal, FixQuality, Reading,
};
use h753zi_telemetry::telemetry::Telemetry;

const GGA: &str = "GNGGA,123519.00,4807.038,N,01131.000,E,1,08,0.9,545.4,M,46.9,M,,";
const RMC: &str = "GNRMC,123519.00,A,4807.038,N,01131.000,E,022.4,084.4,230394,003.1,W";

fn decimal(neg: bool, whole: u64, frac: u64, frac_digits: usize) -> Decimal {
    Decimal { neg, whole, frac, frac_digits }
}

#[test]
fn fix_quality_from_field() {
    assert_eq!(FixQuality::from_field("0"), FixQuality::NoFix);
    assert_eq!(FixQuality::from_field("1"), FixQuality::Gnss);
    assert_eq!(FixQuality::from_field("2"), FixQuality::Dgnss);
    assert_eq!(FixQuality::from_field("6"), FixQuality::Other(6));
    assert_eq!(FixQuality::from_field("255"), FixQuality::Other(255));
    assert_eq!(FixQuality::from_field("+1"), FixQuality::Gnss);
    assert_eq!(FixQuality::from_field("256"), FixQuality::NoFix);
    assert_eq!(FixQuality::from_field(""), FixQuality::NoFix);
    assert_eq!(FixQuality::from_field("-1"), FixQuality::NoFix);
    assert_eq!(FixQuality::from_field("x"), FixQuality::NoFix);
}

#[test]
fn time_of_day() {
    assert_eq!(parse_hhmmss("123519.00"), 123519);
    assert_eq!(parse_hhmmss("000001"), 1);
    assert_eq!(parse_hhmmss(""), 0);
    assert_eq!(parse_hhmmss(".5"), 0);
    assert_eq!(parse_hhmmss("4294967295"), 4_294_967_295);
    assert_eq!(parse_hhmmss("4294967296"), 0);
}

#[test]
fn decimals() {
    assert_eq!(parse_decimal(b"545.4"), decimal(false, 545, 4, 1));
    assert_eq!(parse_decimal(b"-12.050"), decimal(true, 12, 50, 3));
    assert_eq!(parse_decimal(b"7"), decimal(false, 7, 0, 0));
    assert_eq!(parse_decimal(b"7."), decimal(false, 7, 0, 0));
    assert_eq!(parse_decimal(b".25"), decimal(false, 0, 25, 2));
    assert_eq!(parse_decimal(b"1.2.3"), decimal(false, 1, 2, 1));
    assert_eq!(parse_decimal(b"1.x5"), decimal(false, 1, 0, 2));
    assert_eq!(parse_decimal(b"--1.5"), decimal(true, 0, 5, 1));
    assert_eq!(parse_decimal(b""), decimal(false, 0, 0, 0));
}

#[test]
fn coordinates() {
    assert_eq!(
        parse_coord("4807.038", "N"),
        Coord { negative: false, degrees: 48, minutes: decimal(false, 7, 38, 3) }
    );
    assert_eq!(
        parse_coord("01131.000", "W"),
        Coord { negative: true, degrees: 11, minutes: decimal(false, 31, 0, 3) }
    );
    assert!(parse_coord("4807.038", "S").negative);
    assert!(!parse_coord("4807.038", "E").negative);
    assert!(!parse_coord("4807.038", "SW").negative);
}

#[test]
fn coordinates_without_room_for_minutes_are_zero() {
    let zero = Coord { negative: false, degrees: 0, minutes: decimal(false, 0, 0, 0) };
    assert_eq!(parse_coord("", "S"), zero);
    assert_eq!(parse_coord("7.5", "S"), zero);
}

#[test]
fn coordinates_without_a_point() {
    assert_eq!(
        parse_coord("4807", "N"),
        Coord { negative: false, degrees: 48, minutes: decimal(false, 7, 0, 0) }
    );
}

#[test]
fn coordinates_divide_between_characters() {
    assert!(divides("4807.038"));
    assert!(divides("."));
    assert!(!divides("4\u{e9}7.0"));
    assert!(divides("\u{e9}12.0"));
}

#[test]
fn gga_fields() {
    let fields = ["123519.00", "4807.038", "N", "01131.000", "E", "1", "08", "0.9", "545.4"];
    let gga = parse_gga(&fields).unwrap();
    assert_eq!(gga.utc, 123519);
    assert_eq!(gga.fix, FixQuality::Gnss);
    assert_eq!(gga.satellites, 8);
    assert_eq!(gga.hdop, decimal(false, 0, 9, 1));
    assert_eq!(gga.altitude, decimal(false, 545, 4, 1));
    assert_eq!(gga.latitude.degrees, 48);
    assert_eq!(gga.longitude.degrees, 11);
    assert_eq!(parse_gga(&fields[..8]), None);
    assert_eq!(parse_gga(&[]), None);
}

#[test]
fn rmc_fields() {
    let fields =
        ["123519.00", "A", "4807.038", "N", "01131.000", "E", "022.4", "084.4", "230394"];
    let rmc = parse_rmc(&fields).unwrap();
    assert_eq!(rmc.utc, 123519);
    assert_eq!(rmc.date, 230394);
    assert!(rmc.valid);
    assert_eq!(rmc.speed, decimal(false, 22, 4, 1));
    assert_eq!(rmc.course, decimal(false, 84, 4, 1));
    assert_eq!(parse_rmc(&fields[..8]), None);
    let mut void = fields;
    void[1] = "V";
    assert!(!parse_rmc(&void).unwrap().valid);
}

#[test]
fn sentences_are_told_apart_by_kind() {
    assert!(matches!(read_sentence(GGA), Reading::Gga(_)));
    assert!(matches!(read_sentence(RMC), Reading::Rmc(_)));
    assert_eq!(read_sentence("GNGSV,1,1,00"), Reading::Nothing);
    assert_eq!(read_sentence("GNGGA,123519"), Reading::Nothing);
    assert_eq!(read_sentence(""), Reading::Nothing);
    assert_eq!(read_sentence("GGA"), Reading::Nothing);
}

#[test]
fn talker_does_not_matter() {
    let behind = &GGA[2..];
    for talker in ["GP", "GN", "GL", "GA"] {
        let sentence = format!("{talker}{behind}");
        assert_eq!(read_sentence(&sentence), read_sentence(GGA));
    }
}

#[test]
fn sentences_that_cannot_be_read() {
    assert!(can_read(GGA));
    assert!(can_read(RMC));
    assert!(!can_read("GNGGA,1,4\u{e9}7.0,N,01131.000,E,1,08,0.9,545.4"));
    assert!(!can_read("GNRMC,1,A,4807.038,N,4\u{e9}7.0,E,022.4,084.4,230394"));
    assert!(can_read("GNGSV,1,4\u{e9}7.0,N,01131.000,E,1,08,0.9,545.4"));
}

#[test]
fn sentences_are_stored() {
    let mut t = Telemetry::default();
    let mut last_fix = FixQuality::NoFix;

    assert!(handle_sentence(GGA, &mut last_fix, &mut t, 10));
    assert_eq!(last_fix, FixQuality::Gnss);
    assert_eq!(t.gnss_updated, Some(10));
    assert!(t.has_fix());
    assert_eq!(t.rmc, None);
    assert_eq!(t.position().unwrap().0, parse_coord("4807.038", "N"));

    assert!(!handle_sentence(GGA, &mut last_fix, &mut t, 20));
    assert_eq!(t.gnss_updated, Some(20));

    assert!(!handle_sentence(RMC, &mut last_fix, &mut t, 30));
    assert_eq!(t.gnss_updated, Some(30));
    assert_eq!(t.rmc.unwrap().date, 230394);

    let before = t;
    assert!(!handle_sentence("GNGSV,1,1,00", &mut last_fix, &mut t, 40));
    assert_eq!(t, before);

    let lost = "GNGGA,123519.00,,,,,0,00,99.99,,M,,M,,";
    assert!(handle_sentence(lost, &mut last_fix, &mut t, 50));
    assert_eq!(last_fix, FixQuality::NoFix);
    assert!(!t.has_fix());
    assert_eq!(t.position(), None);
}
