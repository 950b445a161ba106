use h753zi_telemetry::host::{
    numbered_request, parse, pause_before, polled_line, read_reply, reply_line, streamed_line,
    telemetry_request, Subscriber,
};
use h753zi_telemetry::message::message_of;
use h753zi_telemetry::wire::{Frame, FrameText};

fn texts() -> FrameText {
    FrameText {
        uptime_s: "   29.612".to_string(),
        latitude_deg: "0.000000".to_string(),
        longitude_deg: "0.000000".to_string(),
        altitude_m: "0.0".to_string(),
        yaw_deg: "0.0".to_string(),
        pitch_deg: "0.0".to_string(),
        roll_deg: "0.0".to_string(),
    }
}

const EMPTY_LINE: &str =
    "    0.000s pos -- (no fix, 0 sats) | yaw -- pitch -- roll -- (no imu data)";

#[test]
fn arguments() {
    assert_eq!(parse(None, 200, u64::MAX, "interval_ms"), Ok(200));
    assert_eq!(parse(Some("300"), 200, u64::MAX, "interval_ms"), Ok(300));
    assert_eq!(parse(Some("+7"), 1, u64::MAX, "count"), Ok(7));
    assert_eq!(
        parse(Some("18446744073709551615"), 1, u64::MAX, "count"),
        Ok(u64::MAX)
    );
    for bad in ["", "x", "-1", "1.5", " 1", "18446744073709551616"] {
        assert_eq!(
            parse(Some(bad), 1, u64::MAX, "count"),
            Err("count must be a number".to_string())
        );
    }
    assert_eq!(
        parse(Some("4294967296"), 1, 4_294_967_295, "interval_ms"),
        Err("interval_ms must be a number".to_string())
    );
}

#[test]
fn requests() {
    assert_eq!(telemetry_request().body(), b"telemetry");
    assert_eq!(numbered_request("hello", 1, 0).body(), b"hello");
    assert_eq!(numbered_request("hello", 3, 0).body(), b"hello #0");
    assert_eq!(numbered_request("h\u{e9}", 12, 10).body(), "h\u{e9} #10".as_bytes());
    assert_eq!(numbered_request("hello", 0, 0).body(), b"hello #0");
}

#[test]
fn requests_are_spaced() {
    assert_eq!(pause_before(0, 200), 0);
    assert_eq!(pause_before(1, 200), 200);
}

#[test]
fn replies() {
    let frame = Frame { satellites: 9, ..Frame::default() };
    assert_eq!(read_reply(&message_of(&frame.encode())), Ok(frame));
    assert_eq!(
        read_reply(&message_of(b"hello")),
        Err("undecodable reply (frame too short): 5 bytes".to_string())
    );
    let mut bytes = frame.encode();
    bytes[0] = b'X';
    assert_eq!(
        read_reply(&message_of(&bytes)),
        Err("undecodable reply (bad magic): 69 bytes".to_string())
    );
    bytes = frame.encode();
    bytes[4] = 2;
    assert_eq!(
        read_reply(&message_of(&bytes)),
        Err("undecodable reply (unsupported frame version 2): 69 bytes".to_string())
    );
}

#[test]
fn polled_frames() {
    assert_eq!(
        polled_line(&Frame::default(), &texts(), "0.64"),
        format!("{EMPTY_LINE}  [0.64 ms]")
    );
}

#[test]
fn plain_replies() {
    assert_eq!(reply_line(" 0.70", &message_of("h\u{e9}".as_bytes())), " 0.70 ms  h\u{e9}");
    assert_eq!(reply_line(" 0.70", &message_of(b"a\xFFb")), " 0.70 ms  a\u{fffd}b");
}

#[test]
fn subscriber_counts_and_measures() {
    let mut s = Subscriber::new(4);
    let at = |uptime_ms: u64| Frame { uptime_ms, ..Frame::default() };
    assert!(s.wants_more());
    assert_eq!(s.on_message(&message_of(&at(1000).encode())), Ok((at(1000), None)));
    assert_eq!(s.on_message(&message_of(&at(1200).encode())), Ok((at(1200), Some(200))));
    assert_eq!(
        s.on_message(&message_of(b"junk")),
        Err("undecodable frame (frame too short): 4 bytes".to_string())
    );
    assert!(s.wants_more());
    assert_eq!(s.on_message(&message_of(&at(5).encode())), Ok((at(5), Some(0))));
    assert!(!s.wants_more());
    assert_eq!(s.received, 4);
}

#[test]
fn dropped_frame_shows() {
    let at = |uptime_ms: u64| message_of(&Frame { uptime_ms, ..Frame::default() }.encode());
    let mut all = Subscriber::new(9);
    all.on_message(&at(1000)).unwrap();
    let (_, first) = all.on_message(&at(1200)).unwrap();
    let (_, second) = all.on_message(&at(1400)).unwrap();
    let mut some = Subscriber::new(9);
    some.on_message(&at(1000)).unwrap();
    let (_, across) = some.on_message(&at(1400)).unwrap();
    assert_eq!(across, Some(400));
    assert_eq!(across.unwrap(), first.unwrap() + second.unwrap());
}

#[test]
fn streamed_frames() {
    assert_eq!(streamed_line(&Frame::default(), &texts(), None), EMPTY_LINE);
    assert_eq!(
        streamed_line(&Frame::default(), &texts(), Some(200)),
        format!("{EMPTY_LINE}  (+200 ms)")
    );
}
