use h753zi_telemetry::wire::{
    DecodeError, Frame, FrameText, Reader, Writer, FLAG_GNSS_COURSE, FLAG_GNSS_FIX,
    FLAG_GNSS_STALE, FLAG_IMU, FLAG_IMU_STALE, EXACT_UPTIME_MS, FRAME_LEN, MAGIC, VERSION,
};

fn sample() -> Frame {
    Frame {
        uptime_ms: 123_456,
        flags: FLAG_GNSS_FIX | FLAG_IMU | FLAG_GNSS_COURSE,
        fix: 1,
        satellites: 12,
        imu_status: 3,
        latitude_deg: 52.179_861f64.to_bits(),
        longitude_deg: 0.147_983f64.to_bits(),
        altitude_m: 25.4f32.to_bits(),
        speed_mps: 1.5f32.to_bits(),
        course_deg: 91.25f32.to_bits(),
        yaw_deg: (-49.7f32).to_bits(),
        pitch_deg: 0.2f32.to_bits(),
        roll_deg: 21.7f32.to_bits(),
        accel_mss: [0.1f32.to_bits(), (-0.2f32).to_bits(), 9.81f32.to_bits()],
    }
}

fn texts() -> FrameText {
    FrameText {
        uptime_s: "far off".to_string(),
        latitude_deg: "52.179875".to_string(),
        longitude_deg: "0.147999".to_string(),
        altitude_m: "16.5".to_string(),
        yaw_deg: "-49.1".to_string(),
        pitch_deg: "0.1".to_string(),
        roll_deg: "21.8".to_string(),
    }
}

#[test]
fn round_trip() {
    let frame = Frame {
        uptime_ms: 123_456,
        flags: FLAG_GNSS_FIX | FLAG_IMU | FLAG_GNSS_COURSE,
        fix: 1,
        satellites: 12,
        imu_status: 3,
        latitude_deg: 52.179_861f64.to_bits(),
        longitude_deg: 0.147_983f64.to_bits(),
        altitude_m: 25.4f32.to_bits(),
        speed_mps: 1.5f32.to_bits(),
        course_deg: 91.25f32.to_bits(),
        yaw_deg: (-49.7f32).to_bits(),
        pitch_deg: 0.2f32.to_bits(),
        roll_deg: 21.7f32.to_bits(),
        accel_mss: [0.1f32.to_bits(), (-0.2f32).to_bits(), 9.81f32.to_bits()],
    };
    let bytes = frame.encode();
    assert_eq!(bytes.len(), FRAME_LEN);
    assert_eq!(Frame::decode(&bytes), Ok(frame));
}

#[test]
fn rejects_junk() {
    assert_eq!(Frame::decode(&[]), Err(DecodeError::TooShort));

    let mut bytes = Frame::default().encode();
    bytes[0] = b'X';
    assert_eq!(Frame::decode(&bytes), Err(DecodeError::BadMagic));

    let mut bytes = Frame::default().encode();
    bytes[4] = 99;
    assert_eq!(Frame::decode(&bytes), Err(DecodeError::BadVersion(99)));
}

#[test]
fn ignores_trailing_bytes() {
    let frame = Frame { satellites: 7, ..Frame::default() };
    let mut buf = frame.encode().to_vec();
    buf.extend_from_slice(b"extra");
    assert_eq!(Frame::decode(&buf), Ok(frame));
}

#[test]
fn frame_layout_is_little_endian() {
    let bytes = sample().encode();
    assert_eq!(&bytes[..4], b"H7TM");
    assert_eq!(bytes[4], VERSION);
    assert_eq!(&bytes[5..9], &[0b1_0101, 1, 12, 3]);
    assert_eq!(&bytes[9..17], &123_456u64.to_le_bytes());
    assert_eq!(&bytes[17..25], &52.179_861f64.to_le_bytes());
    assert_eq!(&bytes[25..33], &0.147_983f64.to_le_bytes());
    assert_eq!(&bytes[33..37], &25.4f32.to_le_bytes());
    assert_eq!(&bytes[37..41], &1.5f32.to_le_bytes());
    assert_eq!(&bytes[41..45], &91.25f32.to_le_bytes());
    assert_eq!(&bytes[45..49], &(-49.7f32).to_le_bytes());
    assert_eq!(&bytes[49..53], &0.2f32.to_le_bytes());
    assert_eq!(&bytes[53..57], &21.7f32.to_le_bytes());
    assert_eq!(&bytes[57..61], &0.1f32.to_le_bytes());
    assert_eq!(&bytes[61..65], &(-0.2f32).to_le_bytes());
    assert_eq!(&bytes[65..69], &9.81f32.to_le_bytes());
}

#[test]
fn one_byte_short_is_too_short() {
    let bytes = sample().encode();
    assert_eq!(Frame::decode(&bytes[..FRAME_LEN - 1]), Err(DecodeError::TooShort));
}

#[test]
fn decoded_bytes_encode_to_themselves() {
    let mut bytes = [0u8; FRAME_LEN];
    for i in 0..FRAME_LEN {
        bytes[i] = (i * 37 + 11) as u8;
    }
    bytes[..4].copy_from_slice(&MAGIC);
    bytes[4] = VERSION;
    let frame = Frame::decode(&bytes).unwrap();
    assert_eq!(frame.encode(), bytes);
}

#[test]
fn every_frame_starts_with_the_topic() {
    assert_eq!(&Frame::default().encode()[..4], &MAGIC);
    assert_eq!(&sample().encode()[..4], &MAGIC);
}

#[test]
fn flag_accessors() {
    assert!(sample().has_fix());
    assert!(sample().has_imu());
    let none = Frame { flags: FLAG_GNSS_STALE | FLAG_IMU_STALE | FLAG_GNSS_COURSE, ..sample() };
    assert!(!none.has_fix());
    assert!(!none.has_imu());
}

#[test]
fn error_messages() {
    assert_eq!(DecodeError::TooShort.message(), "frame too short");
    assert_eq!(DecodeError::BadMagic.message(), "bad magic");
    assert_eq!(DecodeError::BadVersion(99).message(), "unsupported frame version 99");
}

#[test]
fn line_of_a_full_frame() {
    let frame = Frame {
        uptime_ms: 20_423,
        imu_status: 0,
        flags: FLAG_GNSS_FIX | FLAG_IMU,
        ..sample()
    };
    assert_eq!(
        frame.line(&texts()),
        "   20.423s pos 52.179875,0.147999 alt 16.5m (fix 1, 12 sats) | yaw -49.1 pitch 0.1 roll 21.8 (imu 0/3)"
    );
}

#[test]
fn line_of_an_empty_frame() {
    assert_eq!(
        Frame::default().line(&texts()),
        "    0.000s pos -- (no fix, 0 sats) | yaw -- pitch -- roll -- (no imu data)"
    );
}

#[test]
fn line_of_a_stale_frame() {
    let frame = Frame {
        uptime_ms: 20_423,
        flags: FLAG_GNSS_STALE | FLAG_IMU | FLAG_IMU_STALE,
        satellites: 4,
        imu_status: 2,
        ..Frame::default()
    };
    assert_eq!(
        frame.line(&texts()),
        "   20.423s pos -- (no fix, 4 sats) [stale] | yaw -49.1 pitch 0.1 roll 21.8 (imu 2/3) [stale]"
    );
}

#[test]
fn writer_and_reader_move_fields_back_to_back() {
    let mut buf = [0u8; FRAME_LEN];
    let mut w = Writer { buf: &mut buf, at: 0 };
    w.u8(7);
    w.bytes(&[1, 2, 3]);
    w.u64(0x0102_0304_0506_0708);
    w.f64_bits(1.5f64.to_bits());
    w.f32_bits((-2.0f32).to_bits());
    assert_eq!(w.at, 24);
    assert_eq!(&buf[..12], &[7, 1, 2, 3, 8, 7, 6, 5, 4, 3, 2, 1]);

    let mut r = Reader { buf: &buf, at: 0 };
    assert_eq!(r.u8(), 7);
    assert_eq!(r.array::<3>(), [1, 2, 3]);
    assert_eq!(r.u64(), 0x0102_0304_0506_0708);
    assert_eq!(r.f64_bits(), 1.5f64.to_bits());
    assert_eq!(r.f32_bits(), (-2.0f32).to_bits());
    assert_eq!(r.at, 24);
}

#[test]
fn uptime_is_shown_to_the_millisecond() {
    let mut some: Vec<u64> = vec![0, 1, 999, 1000, 20_423, 99_999_999, 100_000_000, 4_294_967_296];
    let mut ms = 1u64;
    while ms < EXACT_UPTIME_MS {
        some.push(ms);
        ms = ms * 3 + 7;
    }
    for back in 1..2000 {
        some.push(EXACT_UPTIME_MS - back);
    }
    for uptime_ms in some {
        let line = Frame { uptime_ms, ..Frame::default() }.line(&texts());
        let expected = format!("{:>9.3}s pos ", uptime_ms as f64 / 1000.0);
        assert!(line.starts_with(&expected), "{line} {expected}");
    }
    let far = Frame { uptime_ms: EXACT_UPTIME_MS, ..Frame::default() };
    assert!(far.line(&texts()).starts_with("far offs pos "));
}
