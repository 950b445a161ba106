use h753zi_telemetry::gnss::{
    handle_sentence, FixQuality, CHUNK, MAX_SENTENCE, POLL_INTERVAL_MS, RETRY_INTERVAL_MS,
};
use h753zi_telemetry::nmea::{
    bytes_available, checked_sentence, BusFault, GnssAction, GnssNotice, GnssReader,
};
use h753zi_telemetry::telemetry::Telemetry;

const LINE: &[u8] = b"$GPGGA,123519,4807.038,N,01131.000,E,1,08,0.9,545.4,M,46.9,M,,*47\r\n";
const PAYLOAD: &str = "GPGGA,123519,4807.038,N,01131.000,E,1,08,0.9,545.4,M,46.9,M,,";

#[test]
fn payload_of_a_good_line() {
    assert_eq!(checked_sentence(LINE), Some(PAYLOAD));
}

#[test]
fn either_line_ending_and_either_case() {
    assert_eq!(checked_sentence(b"$A*41\n"), Some("A"));
    assert_eq!(checked_sentence(b"$A*41\r\n"), Some("A"));
    assert_eq!(checked_sentence(b"$J*4a\n"), Some("J"));
    assert_eq!(checked_sentence(b"$J*4A\n"), Some("J"));
    assert_eq!(checked_sentence(b"$*0\n"), Some(""));
    assert_eq!(checked_sentence(b"$*0*2a\n"), None);
    assert_eq!(checked_sentence(b"$*0*1A\n"), Some("*0"));
}

#[test]
fn lines_that_do_not_pass() {
    assert_eq!(checked_sentence(b""), None);
    assert_eq!(checked_sentence(b"A*41\n"), None);
    assert_eq!(checked_sentence(b"$A*41"), None);
    assert_eq!(checked_sentence(b"$A41\n"), None);
    assert_eq!(checked_sentence(b"$A*42\n"), None);
    assert_eq!(checked_sentence(b"$A*\n"), None);
    assert_eq!(checked_sentence(b"$A*xy\n"), None);
    assert_eq!(checked_sentence(b"$A*141\n"), None);
    assert_eq!(checked_sentence(b"$\xC3*C3\n"), None);
    assert_eq!(checked_sentence(b"$A*\xFF\n"), None);
}

#[test]
fn every_changed_byte_is_caught() {
    for i in 1..=PAYLOAD.len() {
        let mut bad = LINE.to_vec();
        bad[i] ^= 0x01;
        assert_eq!(checked_sentence(&bad), None);
    }
}

#[test]
fn count_register_is_big_endian() {
    assert_eq!(bytes_available([0x01, 0x02]), 0x0102);
    assert_eq!(bytes_available([0, 0]), 0);
    assert_eq!(bytes_available([0xFF, 0xFE]), 0xFFFE);
    assert_eq!(bytes_available([0xFF, 0xFF]), 0);
}

#[test]
fn sentence_comes_out_whatever_the_pieces() {
    for size in 1..LINE.len() {
        let mut r = GnssReader::new();
        let mut out: Vec<String> = Vec::new();
        for piece in LINE.chunks(size) {
            out.extend(r.feed(piece));
        }
        assert_eq!(out, vec![PAYLOAD.to_string()]);
        assert!(r.line.is_empty());
    }
}

#[test]
fn filler_leaves_no_trace() {
    let mut stream: Vec<u8> = Vec::new();
    for b in LINE {
        stream.push(0xFF);
        stream.push(*b);
    }
    stream.push(0xFF);
    let mut r = GnssReader::new();
    assert_eq!(r.feed(&stream), vec![PAYLOAD.to_string()]);
    assert!(r.line.is_empty());
}

#[test]
fn dollar_starts_afresh() {
    let mut r = GnssReader::new();
    let mut stream = b"garbage$GPGSV,half".to_vec();
    stream.extend_from_slice(LINE);
    stream.extend_from_slice(b"$A*41\n");
    assert_eq!(r.feed(&stream), vec![PAYLOAD.to_string(), "A".to_string()]);
}

#[test]
fn overlong_lines_are_dropped() {
    let mut r = GnssReader::new();
    let mut stream = b"$".to_vec();
    stream.extend(std::iter::repeat(b'A').take(2 * MAX_SENTENCE));
    assert!(r.feed(&stream).is_empty());
    assert_eq!(r.line.len(), MAX_SENTENCE);
    assert!(r.feed(b"\n").is_empty());
    assert!(r.line.is_empty());
    assert_eq!(r.feed(LINE), vec![PAYLOAD.to_string()]);
}

#[test]
fn polling_an_idle_receiver() {
    let mut r = GnssReader::new();
    assert_eq!(
        r.on_count(Ok([0, 0])),
        (GnssAction::QueryAfter(POLL_INTERVAL_MS), None)
    );
    assert_eq!(
        r.on_count(Ok([0xFF, 0xFF])),
        (GnssAction::QueryAfter(POLL_INTERVAL_MS), None)
    );
}

#[test]
fn failures_are_told_once() {
    let mut r = GnssReader::new();
    let retry = GnssAction::QueryAfter(RETRY_INTERVAL_MS);
    assert_eq!(r.on_count(Err(BusFault::Nack)), (retry, Some(GnssNotice::Failing(BusFault::Nack))));
    assert_eq!(r.on_count(Err(BusFault::Other)), (retry, None));
    assert_eq!(
        r.on_count(Ok([0, 5])),
        (GnssAction::Read(5), Some(GnssNotice::Responding))
    );
    assert_eq!(r.on_count(Ok([0, 5])), (GnssAction::Read(5), None));
}

#[test]
fn burst_is_read_in_chunks() {
    let mut r = GnssReader::new();
    let (mut action, _) = r.on_count(Ok([0, 150]));
    let mut sizes: Vec<usize> = Vec::new();
    while let GnssAction::Read(n) = action {
        sizes.push(n);
        let data = vec![0xFFu8; n];
        action = r.on_data(Some(&data)).0;
    }
    assert_eq!(sizes, vec![CHUNK, CHUNK, 22]);
    assert_eq!(action, GnssAction::Query);
    assert_eq!(r.remaining, 0);
}

#[test]
fn failed_read_gives_up_the_burst() {
    let mut r = GnssReader::new();
    r.on_count(Ok([0, 150]));
    assert_eq!(r.on_data(Some(&[b'$'; 64])), (GnssAction::Read(64), vec![]));
    assert_eq!(r.on_data(None), (GnssAction::Query, vec![]));
    assert_eq!(r.remaining, 0);
    assert_eq!(r.line, vec![b'$']);
}

#[test]
fn other_faults_are_told_apart() {
    let mut r = GnssReader::new();
    assert_eq!(
        r.on_count(Err(BusFault::Other)).1,
        Some(GnssNotice::Failing(BusFault::Other))
    );
}

/// The payloads of the segments of a stream, found by looking at all of it.
fn sentences(stream: &[u8]) -> Vec<String> {
    let s: Vec<u8> = stream.iter().copied().filter(|b| *b != 0xFF).collect();
    let mut out: Vec<String> = Vec::new();
    for end in (0..s.len()).filter(|i| s[*i] == b'\n') {
        let before = &s[..end];
        let dollar = before.iter().rposition(|b| *b == b'$').unwrap_or(0);
        let newline = before.iter().rposition(|b| *b == b'\n').map_or(0, |i| i + 1);
        let segment = &s[dollar.max(newline)..=end];
        if segment.len() <= MAX_SENTENCE {
            out.extend(checked_sentence(segment).map(str::to_string));
        }
    }
    out
}

#[test]
fn stream_gives_its_sentences() {
    let mut stream = b"junk\n$half".to_vec();
    stream.extend_from_slice(LINE);
    stream.extend_from_slice(&[0xFF, 0xFF]);
    stream.extend_from_slice(b"no dollar*41\n$A*41\n$A*42\n");
    stream.extend_from_slice(b"$");
    stream.extend(std::iter::repeat(b'B').take(MAX_SENTENCE - 5));
    stream.extend_from_slice(b"*42\n");
    stream.extend_from_slice(b"$");
    stream.extend(std::iter::repeat(b'B').take(MAX_SENTENCE - 3));
    stream.extend_from_slice(b"*42\n$J*4A\r\n$open");
    let expected = sentences(&stream);
    assert_eq!(expected.len(), 4);
    for size in [1, 7, 64, stream.len()] {
        let mut r = GnssReader::new();
        let mut out: Vec<String> = Vec::new();
        for piece in stream.chunks(size) {
            out.extend(r.feed(piece));
        }
        assert_eq!(out, expected);
    }
}

#[test]
fn store_follows_the_stream() {
    let mut stream = LINE.to_vec();
    stream.extend_from_slice(b"$broken*00\n\xFF\xFF");
    stream.extend_from_slice(LINE);
    let mut expected = Telemetry::default();
    let mut last_fix = FixQuality::NoFix;
    for at in 1..=2u64 {
        handle_sentence(PAYLOAD, &mut last_fix, &mut expected, at);
    }
    for size in [1, 5, 64, stream.len()] {
        let mut r = GnssReader::new();
        let mut t = Telemetry::default();
        let mut last_fix = FixQuality::NoFix;
        let mut at = 0u64;
        for piece in stream.chunks(size) {
            r.on_data(None);
            for sentence in r.feed(piece) {
                at += 1;
                handle_sentence(&sentence, &mut last_fix, &mut t, at);
            }
        }
        assert_eq!(at, 2);
        assert_eq!(t, expected);
    }
}
