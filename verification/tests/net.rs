use h753zi_telemetry::net::{
    banner, mac_address, status_line, CloseReason, EchoAction, EchoEvent, EchoState, LinkMonitor,
    probe_timeout_secs, Outcome, ProbeAction, ProbeEvent, ProbeKind, ProbeState, ADDRESS, ECHO_PORT,
    PEER, PREFIX_LEN,
};

#[test]
fn mac_address_from_the_chip_id() {
    let id = [0x41, 1, 2, 3, 0x18, 5, 6, 7, 0x31, 9, 10, 0x38];
    assert_eq!(mac_address(id), [0x02, 0x00, 0x41, 0x18, 0x31, 0x38]);
}

#[test]
fn mac_addresses_tell_boards_apart() {
    let id = [0u8; 12];
    for i in [0, 4, 8, 11] {
        let mut other = id;
        other[i] = 1;
        assert_ne!(mac_address(id), mac_address(other));
    }
    assert_eq!(mac_address(id)[0] & 0b11, 0b10);
}

#[test]
fn peer_is_on_the_same_network() {
    assert_eq!(PREFIX_LEN, 24);
    assert_eq!(ADDRESS[..3], PEER[..3]);
    assert_ne!(ADDRESS, PEER);
}

#[test]
fn link_changes_are_told_once() {
    let mut m = LinkMonitor::new();
    assert_eq!(m.on_poll(false), None);
    assert_eq!(m.on_poll(true), Some(true));
    assert_eq!(m.on_poll(true), None);
    assert_eq!(m.on_poll(false), Some(false));
    assert_eq!(m.on_poll(false), None);
}

#[test]
fn client_gets_back_what_it_sent() {
    let mut s = EchoState::Listening;
    assert_eq!(s.step(EchoEvent::Accepted(true)), EchoAction::Greet);
    assert_eq!(banner(), "h753zi echo ready\r\n");
    assert_eq!(s.step(EchoEvent::Wrote(true)), EchoAction::Read);
    let mut back: Vec<u8> = Vec::new();
    for chunk in [&b"hello "[..], &b"w"[..], &b"orld"[..]] {
        match s.step(EchoEvent::Received(chunk)) {
            EchoAction::Write(data) => back.extend_from_slice(data),
            _ => panic!("not echoed"),
        }
        assert_eq!(s.step(EchoEvent::Wrote(true)), EchoAction::Read);
    }
    assert_eq!(back, b"hello world");
    assert_eq!(
        s.step(EchoEvent::Received(&[])),
        EchoAction::Close(CloseReason::PeerClosed(11))
    );
    assert_eq!(s, EchoState::Listening);
}

#[test]
fn echo_failures() {
    let mut s = EchoState::Listening;
    assert_eq!(s.step(EchoEvent::Accepted(false)), EchoAction::Listen);
    assert_eq!(s, EchoState::Listening);

    let mut s = EchoState::Greeting;
    assert_eq!(s.step(EchoEvent::Wrote(false)), EchoAction::Abort);
    assert_eq!(s, EchoState::Listening);

    let mut s = EchoState::Reading { total: 3 };
    assert_eq!(s.step(EchoEvent::ReadFailed), EchoAction::Close(CloseReason::ReadFailed));
    assert_eq!(s, EchoState::Listening);

    let mut s = EchoState::Writing { total: 3 };
    assert_eq!(s.step(EchoEvent::Wrote(false)), EchoAction::Close(CloseReason::WriteFailed));
    assert_eq!(s, EchoState::Listening);
}

#[test]
fn web_probe() {
    let kind = ProbeKind::Web;
    let (mut s, first) = ProbeState::start(kind);
    assert_eq!(s, ProbeState::Resolving);
    assert_eq!(first, ProbeAction::Resolve("example.com", 10));
    assert_eq!(probe_timeout_secs(kind), 10);
    let addrs = [[93, 184, 215, 14], [1, 2, 3, 4]];
    assert_eq!(
        s.step(kind, ProbeEvent::Resolved(Some(&addrs))),
        ProbeAction::Connect([93, 184, 215, 14], 80, None)
    );
    assert_eq!(
        s.step(kind, ProbeEvent::Connected(Outcome::Done)),
        ProbeAction::Send("HEAD / HTTP/1.1\r\nHost: example.com\r\nConnection: close\r\n\r\n")
    );
    assert_eq!(s.step(kind, ProbeEvent::Sent(true)), ProbeAction::Read);
    assert_eq!(
        s.step(kind, ProbeEvent::Received(Some(b"HTTP/1.1 200 OK\r\nServer: x\r\n"))),
        ProbeAction::Close { response: Some("HTTP/1.1 200 OK"), flush_secs: 2 }
    );
    assert_eq!(s.step(kind, ProbeEvent::Flushed(Outcome::Done)), ProbeAction::End);
    assert_eq!(s, ProbeState::Over);
}

#[test]
fn web_probe_gives_up() {
    let kind = ProbeKind::Web;
    let none: [[u8; 4]; 0] = [];
    for (mut s, event) in [
        (ProbeState::Resolving, ProbeEvent::Resolved(Some(&none))),
        (ProbeState::Resolving, ProbeEvent::Resolved(None)),
        (ProbeState::Connecting, ProbeEvent::Connected(Outcome::Failed)),
        (ProbeState::Sending, ProbeEvent::Sent(false)),
    ] {
        assert_eq!(s.step(kind, event), ProbeAction::End);
        assert_eq!(s, ProbeState::Over);
    }
    let mut s = ProbeState::Reading;
    assert_eq!(
        s.step(kind, ProbeEvent::Received(None)),
        ProbeAction::Close { response: None, flush_secs: 2 }
    );
    assert_eq!(s, ProbeState::Closing);
}

#[test]
fn peer_probe() {
    let kind = ProbeKind::Peer;
    let (mut s, first) = ProbeState::start(kind);
    assert_eq!(s, ProbeState::Connecting);
    assert_eq!(first, ProbeAction::Connect([192, 168, 50, 10], 1234, Some(5)));
    assert_eq!(first, ProbeAction::Connect(PEER, ECHO_PORT, Some(5)));
    assert_eq!(probe_timeout_secs(kind), 5);
    assert_eq!(
        s.step(kind, ProbeEvent::Connected(Outcome::Done)),
        ProbeAction::Send("hello from h753zi\r\n")
    );
    assert_eq!(s.step(kind, ProbeEvent::Sent(false)), ProbeAction::Close { response: None, flush_secs: 2 });
    assert_eq!(s.step(kind, ProbeEvent::Flushed(Outcome::TimedOut)), ProbeAction::End);

    for outcome in [Outcome::Failed, Outcome::TimedOut] {
        let (mut s, _) = ProbeState::start(kind);
        assert_eq!(s.step(kind, ProbeEvent::Connected(outcome)), ProbeAction::End);
        assert_eq!(s, ProbeState::Over);
    }
}

#[test]
fn first_line_of_a_response() {
    assert_eq!(status_line(b"HTTP/1.1 301 Moved\r\nX: y"), "HTTP/1.1 301 Moved");
    assert_eq!(status_line(b"no line end"), "no line end");
    assert_eq!(status_line(b""), "");
    assert_eq!(status_line(b"\r\n"), "");
    assert_eq!(status_line(b"\xFF\xFE\r\n"), "<non-utf8>");
}

#[test]
fn probe_connects_once() {
    let addrs = [[1, 2, 3, 4]];
    for kind in [ProbeKind::Web, ProbeKind::Peer] {
        let (mut s, mut action) = ProbeState::start(kind);
        let mut connects = 0;
        let mut sends = 0;
        while action != ProbeAction::End {
            let event = match action {
                ProbeAction::Resolve(_, _) => ProbeEvent::Resolved(Some(&addrs)),
                ProbeAction::Connect(_, _, _) => {
                    connects += 1;
                    ProbeEvent::Connected(Outcome::Done)
                }
                ProbeAction::Send(_) => {
                    sends += 1;
                    ProbeEvent::Sent(true)
                }
                ProbeAction::Read => ProbeEvent::Received(Some(b"ok\r\n")),
                _ => ProbeEvent::Flushed(Outcome::Done),
            };
            action = s.step(kind, event);
        }
        assert_eq!((connects, sends), (1, 1));
    }
}
