use h753zi_telemetry::clock::TICK_HZ;
use h753zi_telemetry::gnss::{handle_sentence, FixQuality};
use h753zi_telemetry::imu::{Acceleration, Orientation};
use h753zi_telemetry::message::message_of;
use h753zi_telemetry::nng_net::{
    frame, frame_message, rep_step, Publisher, Quantities, RepStep, FRAMES_PER_NOTICE,
    PUBLISH_HZ, PUB_PIPES, REP_PIPES,
};
use h753zi_telemetry::telemetry::Telemetry;
use h753zi_telemetry::wire::{
    Frame, FLAG_GNSS_COURSE, FLAG_GNSS_FIX, FLAG_GNSS_STALE, FLAG_IMU, FLAG_IMU_STALE, MAGIC,
};

fn quantities() -> Quantities {
    Quantities {
        latitude_deg: 52.18f64.to_bits(),
        longitude_deg: 0.148f64.to_bits(),
        altitude_m: 16.5f32.to_bits(),
        speed_mps: 1.5f32.to_bits(),
        course_deg: 91.25f32.to_bits(),
        yaw_deg: (-49.1f32).to_bits(),
        pitch_deg: 0.1f32.to_bits(),
        roll_deg: 21.8f32.to_bits(),
        accel_mss: [0.1f32.to_bits(), (-0.2f32).to_bits(), 9.81f32.to_bits()],
    }
}

fn full() -> Telemetry {
    let mut t = Telemetry::default();
    let mut last = FixQuality::NoFix;
    handle_sentence("GNGGA,1,5210.0,N,00008.0,E,4,12,1.0,16.5", &mut last, &mut t, 100);
    handle_sentence("GNRMC,1,A,5210.0,N,00008.0,E,3.0,91.25,010126", &mut last, &mut t, 100);
    t.orientation = Some(Orientation { i: 0, j: 0, k: 0, real: 16384, accuracy: 0, status: 3 });
    t.acceleration = Some(Acceleration { x: 0, y: 0, z: 2511, status: 3 });
    t.imu_updated = Some(100);
    t
}

#[test]
fn frame_of_a_full_store() {
    let q = quantities();
    let f = frame(&full(), TICK_HZ, &q);
    assert_eq!(
        f,
        Frame {
            uptime_ms: 1000,
            flags: FLAG_GNSS_FIX | FLAG_GNSS_COURSE | FLAG_IMU,
            fix: 4,
            satellites: 12,
            imu_status: 3,
            latitude_deg: q.latitude_deg,
            longitude_deg: q.longitude_deg,
            altitude_m: q.altitude_m,
            speed_mps: q.speed_mps,
            course_deg: q.course_deg,
            yaw_deg: q.yaw_deg,
            pitch_deg: q.pitch_deg,
            roll_deg: q.roll_deg,
            accel_mss: q.accel_mss,
        }
    );
}

#[test]
fn frame_of_an_empty_store_is_zero() {
    let f = frame(&Telemetry::default(), 0, &quantities());
    assert_eq!(f, Frame::default());
}

#[test]
fn clear_flag_means_zero() {
    let mut t = full();
    let mut last = FixQuality::NoFix;
    handle_sentence("GNGGA,1,5210.0,N,00008.0,E,0,03,1.0,16.5", &mut last, &mut t, 100);
    handle_sentence("GNRMC,1,V,5210.0,N,00008.0,E,3.0,91.25,010126", &mut last, &mut t, 100);
    t.orientation = None;
    let f = frame(&t, 100, &quantities());
    assert_eq!(
        f,
        Frame {
            uptime_ms: 3,
            satellites: 3,
            accel_mss: quantities().accel_mss,
            ..Frame::default()
        }
    );
}

#[test]
fn stale_readings_are_flagged() {
    let limit = 100 + 3 * TICK_HZ;
    let fresh = frame(&full(), limit, &quantities());
    assert_eq!(fresh.flags & (FLAG_GNSS_STALE | FLAG_IMU_STALE), 0);
    let old = frame(&full(), limit + 1, &quantities());
    assert_eq!(
        old.flags & (FLAG_GNSS_STALE | FLAG_IMU_STALE),
        FLAG_GNSS_STALE | FLAG_IMU_STALE
    );
    assert!(old.has_fix() && old.has_imu());
}

#[test]
fn fix_numbers() {
    for (field, code) in [("0", 0u8), ("1", 1), ("2", 2), ("7", 7)] {
        let mut t = Telemetry::default();
        let mut last = FixQuality::NoFix;
        let sentence = format!("GNGGA,1,5210.0,N,00008.0,E,{field},03,1.0,16.5");
        handle_sentence(&sentence, &mut last, &mut t, 0);
        assert_eq!(frame(&t, 0, &quantities()).fix, code);
    }
}

#[test]
fn message_decodes_to_the_frame() {
    let m = frame_message(&full(), 5000, &quantities());
    assert_eq!(&m.body()[..4], &MAGIC);
    assert_eq!(Frame::decode(m.body()), Ok(frame(&full(), 5000, &quantities())));
    assert!(m.header().is_empty());
}

#[test]
fn every_request_is_answered_with_a_frame() {
    let requests: [(&[u8], &str); 3] =
        [(b"telemetry", "telemetry"), (b"", ""), (&[0xFF, 0xFE], "<non-utf8>")];
    for (body, shown) in requests {
        let request = message_of(body);
        match rep_step(Some(&request), &full(), 7000, &quantities()) {
            RepStep::Answer { request, reply } => {
                assert_eq!(request, shown);
                assert_eq!(
                    Frame::decode(reply.body()),
                    Ok(frame(&full(), 7000, &quantities()))
                );
            }
            RepStep::Retry(_) => panic!("not answered"),
        }
    }
}

#[test]
fn failed_receive_is_retried() {
    assert!(matches!(
        rep_step(None, &full(), 7000, &quantities()),
        RepStep::Retry(100)
    ));
}

#[test]
fn deadlines_do_not_drift() {
    let mut p = Publisher::new(1000);
    for n in 1..=500u64 {
        assert_eq!(p.next_tick(), 1000 + n * 6554);
    }
    assert!(500 * 6554 - 100 * TICK_HZ <= 100 * 2);
    assert_eq!(PUBLISH_HZ, 5);
}

#[test]
fn nothing_is_published_to_nobody() {
    let p = Publisher::new(0);
    assert!(p.due(0, &full(), 5000, &quantities()).is_none());
    let m = p.due(2, &full(), 5000, &quantities()).unwrap();
    assert_eq!(Frame::decode(m.body()), Ok(frame(&full(), 5000, &quantities())));
}

#[test]
fn published_frames_are_counted() {
    let mut p = Publisher::new(0);
    assert!(!p.on_published(false));
    assert_eq!(p.published, 0);
    for n in 1..=2 * FRAMES_PER_NOTICE {
        assert_eq!(p.on_published(true), n % 50 == 0);
        assert_eq!(p.published, n);
    }
    assert!(!p.on_published(false));
    assert_eq!(FRAMES_PER_NOTICE as u64, PUBLISH_HZ * 10);
}

#[test]
fn sockets_fit_the_stack() {
    assert!(2 + 1 + 1 + REP_PIPES + PUB_PIPES + 2 <= 16);
}
