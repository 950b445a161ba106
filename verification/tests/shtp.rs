use h753zi_telemetry::shtp::{Packet, ReadStep, Shtp, CHUNK, MAX_PACKET};

/// The transfers by which a sensor sends a packet.
fn send(shtp: &mut Shtp, channel: u8, payload: &[u8], continuation: u16) -> ReadStep {
    let total = (payload.len() + 4) as u16 | continuation;
    let mut chunk = vec![0u8; CHUNK];
    chunk[..2].copy_from_slice(&total.to_le_bytes());
    chunk[2] = channel;
    let mut at = payload.len().min(CHUNK - 4);
    chunk[4..4 + at].copy_from_slice(&payload[..at]);
    let mut step = shtp.begin_read(&chunk);
    while let ReadStep::More(pending) = step {
        let n = pending.next_len();
        let mut next = vec![0xEEu8; 4];
        next.extend_from_slice(&payload[at..at + n - 4]);
        at += n - 4;
        step = shtp.continue_read(pending, &next);
    }
    assert_eq!(at, payload.len());
    step
}

fn numbered(len: usize) -> Vec<u8> {
    (0..len).map(|i| (i * 7 + 3) as u8).collect()
}

#[test]
fn written_packets_are_framed_and_numbered() {
    let mut shtp = Shtp::new();
    assert_eq!(shtp.write(2, &[0xF9, 0]), vec![6, 0, 2, 0, 0xF9, 0]);
    assert_eq!(shtp.write(2, &[0xF9, 0]), vec![6, 0, 2, 1, 0xF9, 0]);
    assert_eq!(shtp.write(1, &[1]), vec![5, 0, 1, 0, 1]);
    for _ in 2..256 {
        shtp.write(2, &[]);
    }
    assert_eq!(shtp.write(2, &[]), vec![4, 0, 2, 0]);
    assert_eq!(shtp.seq, [0, 1, 1, 0, 0, 0]);
}

#[test]
fn command_numbers_wrap() {
    let mut shtp = Shtp::new();
    for i in 0..256u32 {
        assert_eq!(shtp.next_command_seq(), i as u8);
    }
    assert_eq!(shtp.next_command_seq(), 0);
}

#[test]
fn packets_of_every_size_arrive() {
    let mut shtp = Shtp::new();
    for len in [0, 1, 59, 60, 61, 119, 120, 121, 280, MAX_PACKET - 1, MAX_PACKET] {
        let payload = numbered(len);
        let step = send(&mut shtp, 3, &payload, 0);
        assert_eq!(step, ReadStep::Whole(Packet { channel: 3, len }));
        assert_eq!(shtp.payload(&Packet { channel: 3, len }), &payload[..]);
    }
}

#[test]
fn continuation_bit_is_ignored() {
    let mut shtp = Shtp::new();
    let step = send(&mut shtp, 2, &numbered(20), 0x8000);
    assert_eq!(step, ReadStep::Whole(Packet { channel: 2, len: 20 }));
}

#[test]
fn oversized_packets_are_dropped() {
    let mut shtp = Shtp::new();
    send(&mut shtp, 3, &numbered(100), 0);
    let before = shtp.buf;
    let len = MAX_PACKET + 1;
    assert_eq!(
        send(&mut shtp, 3, &numbered(len), 0),
        ReadStep::Dropped(Packet { channel: 3, len })
    );
    assert_eq!(
        send(&mut shtp, 1, &numbered(5000), 0),
        ReadStep::Dropped(Packet { channel: 1, len: 5000 })
    );
    assert_eq!(shtp.buf, before);
}

#[test]
fn idle_headers() {
    let mut shtp = Shtp::new();
    for total in [0u16, 1, 3, 0x7FFF, 0xFFFF, 0x8000] {
        let mut chunk = vec![0u8; CHUNK];
        chunk[..2].copy_from_slice(&total.to_le_bytes());
        assert_eq!(shtp.begin_read(&chunk), ReadStep::Nothing);
    }
}
