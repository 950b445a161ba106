use h753zi_telemetry::clock::{stale, TICK_HZ};
use h753zi_telemetry::gnss::{handle_sentence, FixQuality};
use h753zi_telemetry::imu::Orientation;
use h753zi_telemetry::imu_task::{steady_step, ReadOutcome};
use h753zi_telemetry::telemetry::{
    push_fix_name, summary, Fixed, Rounded, SummaryValues, Telemetry,
};

fn rounded(neg: bool, scaled: u64) -> Rounded {
    Rounded { neg, scaled }
}

fn values() -> SummaryValues {
    SummaryValues {
        latitude: rounded(false, 52_179_779),
        longitude: rounded(false, 147_946),
        altitude: rounded(false, 164),
        yaw: rounded(true, 708),
        pitch: rounded(true, 29),
        roll: rounded(true, 348),
    }
}

fn with_fix(fix: &str) -> Telemetry {
    let mut t = Telemetry::default();
    let mut last = FixQuality::NoFix;
    let sentence = format!("GNGGA,1,5210.0,N,00008.0,E,{fix},06,1.0,16.4");
    handle_sentence(&sentence, &mut last, &mut t, 0);
    t
}

fn fixed(v: Rounded, decimals: u8) -> String {
    let mut out = String::new();
    Fixed::new(v, decimals).format(&mut out);
    out
}

#[test]
fn fixed_point_text() {
    assert_eq!(fixed(rounded(false, 164), 1), "16.4");
    assert_eq!(fixed(rounded(true, 708), 1), "-70.8");
    assert_eq!(fixed(rounded(false, 147_946), 6), "0.147946");
    assert_eq!(fixed(rounded(true, 5), 6), "-0.000005");
    assert_eq!(fixed(rounded(false, 1205), 2), "12.05");
    assert_eq!(fixed(rounded(false, 7), 0), "7");
    assert_eq!(fixed(rounded(false, 1234), 3), "1.234");
    assert_eq!(fixed(rounded(false, 1500), 3), "1.500");
    assert_eq!(fixed(rounded(true, 10_000_007), 7), "-1.0000007");
}

#[test]
fn fixed_point_parts() {
    let f = Fixed::new(rounded(true, 52_179_779), 6);
    assert_eq!(f, Fixed { neg: true, whole: 52, frac: 179_779, decimals: 6 });
    let wide = Fixed::new(rounded(false, u64::MAX), 1);
    assert_eq!(wide.whole, (u64::MAX / 10) as u32);
    assert_eq!(wide.frac, 5);
    assert_eq!(Fixed::new(rounded(false, u64::MAX), 20).whole, 1);
    assert_eq!(Fixed::new(rounded(false, 3), 255).frac, 3);
    assert_eq!(Fixed::new(rounded(false, 20_000_000_000_000_000_00), 19).whole, 0);
}

#[test]
fn summary_of_a_full_store() {
    let mut t = with_fix("1");
    t.orientation =
        Some(Orientation { i: 0, j: 0, k: 0, real: 16384, accuracy: 0, status: 0 });
    assert_eq!(
        summary(&t, 0, &values()),
        "pos 52.179779,0.147946 alt 16.4m (Gnss, 6 sats) | yaw -70.8 pitch -2.9 roll -34.8 (imu 0/3)"
    );
}

#[test]
fn summary_of_an_empty_store() {
    assert_eq!(
        summary(&Telemetry::default(), 10, &values()),
        "pos -- (no gnss data) | yaw -- pitch -- roll -- (no imu data)"
    );
}

#[test]
fn summary_without_a_fix() {
    assert_eq!(
        summary(&with_fix("0"), 10, &values()),
        "pos -- (no fix, 6 sats) | yaw -- pitch -- roll -- (no imu data)"
    );
}

#[test]
fn summary_of_stale_readings() {
    let mut t = with_fix("2");
    t.orientation =
        Some(Orientation { i: 0, j: 0, k: 0, real: 16384, accuracy: 0, status: 3 });
    t.imu_updated = Some(1);
    assert_eq!(
        summary(&t, 3 * TICK_HZ + 1, &values()),
        "pos 52.179779,0.147946 alt 16.4m (Dgnss, 6 sats) [stale] | yaw -70.8 pitch -2.9 roll -34.8 (imu 3/3)"
    );
    assert_eq!(
        summary(&t, 3 * TICK_HZ + 2, &values()),
        "pos 52.179779,0.147946 alt 16.4m (Dgnss, 6 sats) [stale] | yaw -70.8 pitch -2.9 roll -34.8 (imu 3/3) [stale]"
    );
}

#[test]
fn names_of_fix_qualities() {
    let mut out = String::new();
    for fix in [FixQuality::NoFix, FixQuality::Gnss, FixQuality::Dgnss, FixQuality::Other(5)] {
        push_fix_name(&mut out, fix);
        out.push(' ');
    }
    assert_eq!(out, "None Gnss Dgnss Other(5) ");
}

#[test]
fn stale_is_more_than_three_seconds() {
    assert!(!stale(None, 1_000_000));
    assert!(!stale(Some(100), 100 + 3 * TICK_HZ));
    assert!(stale(Some(100), 101 + 3 * TICK_HZ));
}

#[test]
fn sensors_keep_to_themselves() {
    let sentence = "GNGGA,1,5210.0,N,00008.0,E,1,06,1.0,16.4";
    let packet = [0x01, 0, 3, 0, 1, 0, 2, 0, 3, 0];
    let mut last_fix = FixQuality::NoFix;
    let mut last_report = 0u64;

    let mut a = Telemetry::default();
    handle_sentence(sentence, &mut last_fix, &mut a, 10);
    assert_eq!(a.imu_updated, None);
    steady_step(ReadOutcome::Packet(3, &packet), &mut a, &mut last_report, 20);

    let mut b = Telemetry::default();
    steady_step(ReadOutcome::Packet(3, &packet), &mut b, &mut last_report, 20);
    assert_eq!(b.gnss_updated, None);
    handle_sentence(sentence, &mut last_fix, &mut b, 10);

    assert_eq!(a, b);
    assert_eq!(a.gnss_updated, Some(10));
    assert_eq!(a.imu_updated, Some(20));
}

#[test]
fn summary_shows_the_state() {
    let mut t = with_fix("1");
    t.imu_updated = Some(0);
    let mut v = values();
    v.latitude = rounded(true, 52_179_779);
    for (now, is_stale) in [(3 * TICK_HZ, false), (3 * TICK_HZ + 1, true)] {
        let line = summary(&t, now, &v);
        let parts: Vec<&str> = line.split(" | ").collect();
        assert_eq!(parts.len(), 2);
        assert!(parts[0].starts_with("pos -52.179779"));
        assert!(parts[1].starts_with("yaw --"));
        assert_eq!(parts[0].ends_with(" [stale]"), is_stale);
        assert_eq!(parts[1].ends_with(" [stale]"), is_stale);
    }
}
