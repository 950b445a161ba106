use h753zi_telemetry::imu::{
    decode_control, decode_input, q, Acceleration, ControlReport, Orientation,
};

fn rotation(i: i16, status: u8) -> Vec<u8> {
    let mut r = vec![0x05, 1, 0xFC | status, 0];
    for v in [i, -2, 3, 16384, 4096] {
        r.extend_from_slice(&v.to_le_bytes());
    }
    r
}

fn acceleration(x: i16) -> Vec<u8> {
    let mut r = vec![0x01, 1, 2, 0];
    for v in [x, -256, 2511] {
        r.extend_from_slice(&v.to_le_bytes());
    }
    r
}

fn timebase() -> Vec<u8> {
    vec![0xFB, 0, 0, 0, 0]
}

#[test]
fn fixed_point_fields() {
    assert_eq!(q(&[0x00, 0x40], 0), 16384);
    assert_eq!(q(&[9, 0xFF, 0xFF], 1), -1);
    assert_eq!(q(&[0x00, 0x80], 0), -32768);
}

#[test]
fn input_packet_with_both_reports() {
    let mut p = timebase();
    p.extend(rotation(100, 3));
    p.extend(acceleration(7));
    let mut o: Option<Orientation> = None;
    let mut a: Option<Acceleration> = None;
    assert_eq!(decode_input(&p, &mut o, &mut a), 2);
    assert_eq!(
        o,
        Some(Orientation { i: 100, j: -2, k: 3, real: 16384, accuracy: 4096, status: 3 })
    );
    assert_eq!(a, Some(Acceleration { x: 7, y: -256, z: 2511, status: 2 }));
}

#[test]
fn newest_report_wins() {
    let mut p = rotation(1, 0);
    p.extend(rotation(2, 1));
    p.extend(acceleration(1));
    p.extend(acceleration(9));
    let mut o: Option<Orientation> = None;
    let mut a: Option<Acceleration> = None;
    assert_eq!(decode_input(&p, &mut o, &mut a), 4);
    assert_eq!(o.unwrap().i, 2);
    assert_eq!(a.unwrap().x, 9);
}

#[test]
fn nothing_counted_nothing_changed() {
    let before = Some(Acceleration { x: 1, y: 2, z: 3, status: 1 });
    let mut o: Option<Orientation> = None;
    let mut a = before;
    assert_eq!(decode_input(&timebase(), &mut o, &mut a), 0);
    assert_eq!(decode_input(&[], &mut o, &mut a), 0);
    let mut gyro = vec![0x02];
    gyro.extend([0u8; 9]);
    assert_eq!(decode_input(&gyro, &mut o, &mut a), 0);
    assert_eq!(o, None);
    assert_eq!(a, before);
}

#[test]
fn unknown_report_ends_the_packet() {
    let mut p = rotation(1, 0);
    p.push(0x77);
    p.extend(rotation(2, 0));
    let mut o: Option<Orientation> = None;
    let mut a: Option<Acceleration> = None;
    assert_eq!(decode_input(&p, &mut o, &mut a), 1);
    assert_eq!(o.unwrap().i, 1);
}

#[test]
fn cut_report_ends_the_packet() {
    let mut p = rotation(1, 0);
    p.extend(&rotation(2, 0)[..13]);
    let mut o: Option<Orientation> = None;
    let mut a: Option<Acceleration> = None;
    assert_eq!(decode_input(&p, &mut o, &mut a), 1);
    assert_eq!(o.unwrap().i, 1);
}

#[test]
fn other_reports_are_skipped_by_length() {
    for (id, len) in [(0xFA, 5), (0x02, 10), (0x03, 10), (0x04, 10), (0x09, 14), (0x08, 12)] {
        let mut p = vec![0u8; len];
        p[0] = id;
        p.extend(acceleration(5));
        let mut o: Option<Orientation> = None;
        let mut a: Option<Acceleration> = None;
        assert_eq!(decode_input(&p, &mut o, &mut a), 1);
        assert_eq!(a.unwrap().x, 5);
        assert_eq!(o, None);
    }
}

#[test]
fn control_reports() {
    let product = [0xF8, 4, 3, 12, 1, 2, 0, 0, 5, 0, 1, 0, 7, 1];
    assert_eq!(
        decode_control(&product),
        ControlReport::ProductId {
            part: 0x0201,
            major: 3,
            minor: 12,
            patch: 0x0107,
            build: 0x0001_0005,
            reset_cause: 4,
        }
    );
    assert_eq!(decode_control(&product[..13]), ControlReport::Nothing);
    assert_eq!(
        decode_control(&[0xFC, 5, 0, 0, 0, 0x50, 0xC3, 0, 0]),
        ControlReport::Feature { report: 5, interval_us: 50_000 }
    );
    assert_eq!(decode_control(&[0xFC, 5]), ControlReport::Other { id: 0xFC, len: 2 });
    assert_eq!(
        decode_control(&[0xF1, 0, 4, 0, 0, 9]),
        ControlReport::Command { command: 4, status: 9 }
    );
    assert_eq!(decode_control(&[0xF1, 0, 4]), ControlReport::Nothing);
    assert_eq!(decode_control(&[0x33, 1, 2]), ControlReport::Other { id: 0x33, len: 3 });
    assert_eq!(decode_control(&[]), ControlReport::Nothing);
}

#[test]
fn packets_add_up() {
    let mut first = timebase();
    first.extend(rotation(1, 0));
    first.extend(acceleration(2));
    let mut second = acceleration(9);
    second.extend(timebase());
    second.push(0x77);
    let mut both = first.clone();
    both.extend(&second);

    let mut o: Option<Orientation> = None;
    let mut a: Option<Acceleration> = None;
    let n = decode_input(&first, &mut o, &mut a) + decode_input(&second, &mut o, &mut a);
    let mut o_both: Option<Orientation> = None;
    let mut a_both: Option<Acceleration> = None;
    assert_eq!(decode_input(&both, &mut o_both, &mut a_both), n);
    assert_eq!(n, 3);
    assert_eq!((o, a), (o_both, a_both));
    assert_eq!(a.unwrap().x, 9);
}
