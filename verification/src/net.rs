//! Addresses, the link monitor, the TCP echo server and the outbound probes.

use vstd::prelude::*;
use vstd::slice::slice_subrange;
use vstd::string::*;
use crate::text::{find, lacks, lemma_position_is, position, shown, utf8_or_note};

verus! {

/// Port used by both the TCP and the UDP echo server.
pub const ECHO_PORT: u16 = 1234;

/// Address this board takes when it has a fixed one.
pub const ADDRESS: [u8; 4] = [192, 168, 50, 11];

/// Length of the network prefix of [`ADDRESS`].
pub const PREFIX_LEN: u8 = 24;

/// The host on the other end of the cable, used as gateway, resolver and as the
/// target of the outbound connect test.
pub const PEER: [u8; 4] = [192, 168, 50, 10];

/// Port that the web probe connects to.
pub const HTTP_PORT: u16 = 80;

/// Seconds that the web probe waits for the resolver.
pub const RESOLVE_SECS: u64 = 10;

/// Seconds that the point-to-point probe waits for its connection.
pub const CONNECT_SECS: u64 = 5;

/// Seconds that what is still queued is given when a connection is closed.
pub const FLUSH_SECS: u64 = 2;

/// Seconds of silence after which an echo client is given up.
pub const ECHO_TIMEOUT_SECS: u64 = 30;

/// A locally administered MAC address derived from the chip's unique ID, so
/// that two boards on one segment do not collide.
pub fn mac_address(id: [u8; 12]) -> (mac: [u8; 6])
    ensures
        mac@ == mac_of(id@),
{
    let mac: [u8; 6] = [0x02, 0x00, id[0], id[4], id[8], id[11]];
    assert(mac@ =~= mac_of(id@));
    mac
}

/// The MAC address of the board with a given ID.
pub open spec fn mac_of(id: Seq<u8>) -> Seq<u8> {
    seq![0x02, 0x00, id[0], id[4], id[8], id[11]]
}

/// Every derived address is a unicast one that its owner administers.
pub proof fn law_mac_is_local_unicast(id: Seq<u8>)
    ensures
        mac_of(id).len() == 6,
        mac_of(id)[0] & 1 == 0,
        mac_of(id)[0] & 2 == 2,
        mac_of(id)[0] < 4,
        mac_of(id)[1] == 0,
{
    assert(2u8 & 1 == 0 && 2u8 & 2 == 2) by (bit_vector);
}

/// The last four bytes of an address come from the ID: its first, fifth, ninth
/// and last byte, in this order.
pub proof fn law_mac_is_made_of_the_id(id: Seq<u8>, place: int)
    requires
        id.len() == 12,
        0 <= place < 4,
    ensures
        mac_of(id)[2 + place] == id[if place == 3 {
            11
        } else {
            4 * place
        }],
{
}

/// Two boards get one address only where the bytes that it is made of agree.
pub proof fn law_mac_tells_boards_apart(a: Seq<u8>, b: Seq<u8>)
    ensures
        mac_of(a) == mac_of(b) <==> a[0] == b[0] && a[4] == b[4] && a[8] == b[8] && a[11] == b[11],
{
    if mac_of(a) == mac_of(b) {
        assert(mac_of(a)[2] == mac_of(b)[2]);
        assert(mac_of(a)[3] == mac_of(b)[3]);
        assert(mac_of(a)[4] == mac_of(b)[4]);
        assert(mac_of(a)[5] == mac_of(b)[5]);
    }
}

/// What is told of a link, from its state before and now: the new state where
/// it changed.
pub open spec fn link_told(was_up: bool, is_up: bool) -> Option<bool> {
    if is_up != was_up {
        Some(is_up)
    } else {
        None
    }
}

/// The state of a link that was never looked at.
pub open spec fn link_at_first() -> bool {
    false
}

/// Watches the link for changes.
#[derive(Clone, Copy, Debug, PartialEq, Eq, Structural)]
pub struct LinkMonitor {
    pub was_up: bool,
}

impl LinkMonitor {
    /// A link counts as down until it is first seen up.
    pub fn new() -> (m: LinkMonitor)
        ensures
            m.was_up == link_at_first(),
    {
        LinkMonitor { was_up: false }
    }

    /// Takes the link's state; returns the new state when it changed.
    pub fn on_poll(&mut self, is_up: bool) -> (change: Option<bool>)
        ensures
            final(self).was_up == is_up,
            change == link_told(old(self).was_up, is_up),
    {
        if is_up != self.was_up {
            self.was_up = is_up;
            Some(is_up)
        } else {
            None
        }
    }
}

/// A link that goes up or down is told once, with the state it is in then; one
/// that stays as it is says nothing, nor does one that is down from the start.
pub proof fn law_link_changes_are_told(was_up: bool, is_up: bool)
    ensures
        link_told(was_up, is_up) is Some <==> was_up != is_up,
        link_told(false, true) == Some(true),
        link_told(true, false) == Some(false),
        link_told(is_up, is_up) is None,
        link_told(link_at_first(), is_up) is Some <==> is_up,
{
}

/// Where the echo server stands with its client.
#[derive(Clone, Copy, Debug, PartialEq, Eq, Structural)]
pub enum EchoState {
    /// Waiting for a client.
    Listening,
    /// Sending the banner.
    Greeting,
    /// Waiting for data; `total` bytes have been received.
    Reading { total: usize },
    /// Sending data back.
    Writing { total: usize },
}

/// What came of the last action of the echo server.
#[derive(Clone, Copy, Debug, PartialEq, Eq)]
pub enum EchoEvent<'a> {
    /// A client was accepted, or not.
    Accepted(bool),
    /// Data, none of it when the client has closed.
    Received(&'a [u8]),
    /// Reading failed.
    ReadFailed,
    /// All of the data was written, or not.
    Wrote(bool),
}

/// Why the echo server closes a connection.
#[derive(Clone, Copy, Debug, PartialEq, Eq, Structural)]
pub enum CloseReason {
    /// The client closed after this many bytes.
    PeerClosed(usize),
    ReadFailed,
    WriteFailed,
}

/// What the echo server does next.
#[derive(Clone, Copy, Debug, PartialEq, Eq)]
pub enum EchoAction<'a> {
    /// Accept a client on a new socket.
    Listen,
    /// Send the banner.
    Greet,
    Read,
    Write(&'a [u8]),
    /// Drop the connection at once, then listen.
    Abort,
    /// Close the connection, send what is still queued within
    /// [`FLUSH_SECS`], then listen.
    Close(CloseReason),
}

/// The banner that greets a client.
pub fn banner() -> (out: &'static str)
    ensures
        out@ == "h753zi echo ready\r\n"@,
{
    "h753zi echo ready\r\n"
}

/// Whether `event` can follow in state `s`, and the count of bytes still fits.
pub open spec fn echo_expects(s: EchoState, event: EchoEvent) -> bool {
    match s {
        EchoState::Listening => event is Accepted,
        EchoState::Greeting => event is Wrote,
        EchoState::Reading { total } => match event {
            EchoEvent::Received(data) => total + data@.len() <= usize::MAX,
            EchoEvent::ReadFailed => true,
            _ => false,
        },
        EchoState::Writing { total } => event is Wrote,
    }
}

/// The server's next state and action. What comes in goes back as it is.
pub open spec fn echo_next<'a>(s: EchoState, event: EchoEvent<'a>) -> (EchoState, EchoAction<'a>) {
    match (s, event) {
        (EchoState::Listening, EchoEvent::Accepted(true)) => (
            EchoState::Greeting,
            EchoAction::Greet,
        ),
        (EchoState::Greeting, EchoEvent::Wrote(true)) => (
            EchoState::Reading { total: 0 },
            EchoAction::Read,
        ),
        (EchoState::Greeting, _) => (EchoState::Listening, EchoAction::Abort),
        (EchoState::Reading { total }, EchoEvent::Received(data)) => if data@.len() == 0 {
            (EchoState::Listening, EchoAction::Close(CloseReason::PeerClosed(total)))
        } else {
            (
                EchoState::Writing { total: (total + data@.len()) as usize },
                EchoAction::Write(data),
            )
        },
        (EchoState::Reading { total }, _) => (
            EchoState::Listening,
            EchoAction::Close(CloseReason::ReadFailed),
        ),
        (EchoState::Writing { total }, EchoEvent::Wrote(true)) => (
            EchoState::Reading { total },
            EchoAction::Read,
        ),
        (EchoState::Writing { total }, _) => (
            EchoState::Listening,
            EchoAction::Close(CloseReason::WriteFailed),
        ),
        _ => (EchoState::Listening, EchoAction::Listen),
    }
}

impl EchoState {
    /// Takes what came of the last action and returns the next one.
    pub fn step<'a>(&mut self, event: EchoEvent<'a>) -> (action: EchoAction<'a>)
        requires
            echo_expects(*old(self), event),
        ensures
            (*final(self), action) == echo_next(*old(self), event),
    {
        match (*self, event) {
            (EchoState::Listening, EchoEvent::Accepted(true)) => {
                *self = EchoState::Greeting;
                EchoAction::Greet
            },
            (EchoState::Greeting, EchoEvent::Wrote(true)) => {
                *self = EchoState::Reading { total: 0 };
                EchoAction::Read
            },
            (EchoState::Greeting, _) => {
                *self = EchoState::Listening;
                EchoAction::Abort
            },
            (EchoState::Reading { total }, EchoEvent::Received(data)) => {
                if data.len() == 0 {
                    *self = EchoState::Listening;
                    EchoAction::Close(CloseReason::PeerClosed(total))
                } else {
                    *self = EchoState::Writing { total: total + data.len() };
                    EchoAction::Write(data)
                }
            },
            (EchoState::Reading { .. }, _) => {
                *self = EchoState::Listening;
                EchoAction::Close(CloseReason::ReadFailed)
            },
            (EchoState::Writing { total }, EchoEvent::Wrote(true)) => {
                *self = EchoState::Reading { total };
                EchoAction::Read
            },
            (EchoState::Writing { .. }, _) => {
                *self = EchoState::Listening;
                EchoAction::Close(CloseReason::WriteFailed)
            },
            _ => {
                *self = EchoState::Listening;
                EchoAction::Listen
            },
        }
    }
}

/// The bytes of some chunks, in order.
pub open spec fn joined(chunks: Seq<&[u8]>) -> Seq<u8>
    decreases chunks.len(),
{
    if chunks.len() == 0 {
        Seq::empty()
    } else {
        joined(chunks.drop_last()) + chunks.last()@
    }
}

/// The state of a server, and what it has sent back, after each chunk has been
/// received and written in turn.
pub open spec fn echo_all(chunks: Seq<&[u8]>) -> (EchoState, Seq<u8>)
    decreases chunks.len(),
{
    if chunks.len() == 0 {
        (EchoState::Reading { total: 0 }, Seq::empty())
    } else {
        let (s, sent) = echo_all(chunks.drop_last());
        let (t, action) = echo_next(s, EchoEvent::Received(chunks.last()));
        (
            echo_next(t, EchoEvent::Wrote(true)).0,
            match action {
                EchoAction::Write(data) => sent + data@,
                _ => sent,
            },
        )
    }
}

/// A client gets back exactly what it sent, in order, and the server has
/// counted it: whatever the pieces, the bytes written are the bytes received,
/// and the close that follows reports how many they were.
pub proof fn law_echo_gives_back_what_came(chunks: Seq<&[u8]>)
    requires
        forall|i: int| 0 <= i < chunks.len() ==> (#[trigger] chunks[i])@.len() > 0,
        joined(chunks).len() <= usize::MAX,
    ensures
        echo_all(chunks) == (
            EchoState::Reading { total: joined(chunks).len() as usize },
            joined(chunks),
        ),
        forall|nothing: &[u8]|
            nothing@.len() == 0 ==> #[trigger] echo_next(
                echo_all(chunks).0,
                EchoEvent::Received(nothing),
            ).1 == EchoAction::Close(CloseReason::PeerClosed(joined(chunks).len() as usize)),
    decreases chunks.len(),
{
    if chunks.len() > 0 {
        let rest = chunks.drop_last();
        assert forall|i: int| 0 <= i < rest.len() implies (#[trigger] rest[i])@.len() > 0 by {
            assert(rest[i] == chunks[i]);
        }
        assert(chunks[chunks.len() - 1]@.len() > 0);
        law_echo_gives_back_what_came(rest);
    }
}

/// How an operation with a deadline ended.
#[derive(Clone, Copy, Debug, PartialEq, Eq, Structural)]
pub enum Outcome {
    Done,
    Failed,
    TimedOut,
}

/// Where an outbound probe stands.
#[derive(Clone, Copy, Debug, PartialEq, Eq, Structural)]
pub enum ProbeState {
    Resolving,
    Connecting,
    Sending,
    Reading,
    Closing,
    Over,
}

/// What came of a probe's last action.
#[derive(Clone, Copy, Debug, PartialEq, Eq)]
pub enum ProbeEvent<'a> {
    /// The addresses of the host, if the resolver gave an answer in time.
    Resolved(Option<&'a [[u8; 4]]>),
    Connected(Outcome),
    /// All of the data was written, or not.
    Sent(bool),
    /// What was read, if reading worked.
    Received(Option<&'a [u8]>),
    /// The connection was closed and what was queued acknowledged, or not.
    Flushed(Outcome),
}

/// What a probe does next.
#[derive(Clone, Copy, Debug, PartialEq, Eq)]
pub enum ProbeAction<'a> {
    /// Resolve a host name, within so many seconds.
    Resolve(&'static str, u64),
    /// Connect to an address and port, within so many seconds where there is a
    /// limit beside the socket's own.
    Connect([u8; 4], u16, Option<u64>),
    Send(&'static str),
    Read,
    /// Close the connection and send what is still queued, within so many
    /// seconds; a response that was read is logged by its first line.
    Close { response: Option<&'a str>, flush_secs: u64 },
    End,
}

/// What the web probe asks for.
pub open spec fn http_request() -> Seq<char> {
    "HEAD / HTTP/1.1\r\nHost: example.com\r\nConnection: close\r\n\r\n"@
}

/// What the point-to-point probe says.
pub open spec fn greeting() -> Seq<char> {
    "hello from h753zi\r\n"@
}

/// The first line of a response, as it is shown.
pub open spec fn first_line(data: Seq<u8>) -> Seq<char> {
    shown(data.take(position(data, 0x0D) as int))
}

/// The first line of a response: all of it when it holds no carriage return.
pub fn status_line(data: &[u8]) -> (line: &str)
    ensures
        line@ == first_line(data@),
{
    let p: usize = find(data, 0x0D);
    let head = slice_subrange(data, 0, p);
    assert(head@ =~= data@.take(p as int));
    utf8_or_note(head)
}

/// Which probe runs: a host name on a network with a resolver, or the host at
/// the other end of the cable.
#[derive(Clone, Copy, Debug, PartialEq, Eq, Structural)]
pub enum ProbeKind {
    Web,
    Peer,
}

/// Whether `event` can follow in state `s`.
pub open spec fn probe_expects(kind: ProbeKind, s: ProbeState, event: ProbeEvent) -> bool {
    match s {
        ProbeState::Resolving => kind == ProbeKind::Web && event is Resolved,
        ProbeState::Connecting => event is Connected,
        ProbeState::Sending => event is Sent,
        ProbeState::Reading => kind == ProbeKind::Web && event is Received,
        ProbeState::Closing => event is Flushed,
        ProbeState::Over => false,
    }
}

/// The probe's next state. The web probe gives up where nothing was resolved,
/// connected or sent, and reads what comes back; the other gives up where
/// nothing was connected, and closes once it has tried to send.
pub open spec fn probe_after(kind: ProbeKind, event: ProbeEvent) -> ProbeState {
    match event {
        ProbeEvent::Resolved(Some(addrs)) => if addrs@.len() > 0 {
            ProbeState::Connecting
        } else {
            ProbeState::Over
        },
        ProbeEvent::Resolved(None) => ProbeState::Over,
        ProbeEvent::Connected(outcome) => if outcome == Outcome::Done {
            ProbeState::Sending
        } else {
            ProbeState::Over
        },
        ProbeEvent::Sent(sent) => match kind {
            ProbeKind::Web => if sent {
                ProbeState::Reading
            } else {
                ProbeState::Over
            },
            ProbeKind::Peer => ProbeState::Closing,
        },
        ProbeEvent::Received(_) => ProbeState::Closing,
        ProbeEvent::Flushed(_) => ProbeState::Over,
    }
}

/// Whether `action` is what a probe does on `event`: it connects to the first
/// address, sends its own text, and closes with the first line of what it read.
pub open spec fn probe_does(kind: ProbeKind, event: ProbeEvent, action: ProbeAction) -> bool {
    match probe_after(kind, event) {
        ProbeState::Resolving => false,
        ProbeState::Connecting => event matches ProbeEvent::Resolved(Some(addrs)) && action
            == ProbeAction::Connect(addrs@[0], HTTP_PORT, None),
        ProbeState::Sending => action matches ProbeAction::Send(text) && text@ == match kind {
            ProbeKind::Web => http_request(),
            ProbeKind::Peer => greeting(),
        },
        ProbeState::Reading => action == ProbeAction::Read,
        ProbeState::Closing => action matches ProbeAction::Close { response, flush_secs }
            && flush_secs == FLUSH_SECS && match event {
            ProbeEvent::Received(Some(data)) => response matches Some(line) && line@ == first_line(
                data@,
            ),
            _ => response is None,
        },
        ProbeState::Over => action == ProbeAction::End,
    }
}

/// The state that a probe starts in.
pub open spec fn probe_first(kind: ProbeKind) -> ProbeState {
    match kind {
        ProbeKind::Web => ProbeState::Resolving,
        ProbeKind::Peer => ProbeState::Connecting,
    }
}

/// Whether `action` is what a probe does first.
pub open spec fn probe_begins(kind: ProbeKind, action: ProbeAction) -> bool {
    match kind {
        ProbeKind::Web => action matches ProbeAction::Resolve(host, secs) && host@
            == "example.com"@ && secs == RESOLVE_SECS,
        ProbeKind::Peer => action == ProbeAction::Connect(PEER, ECHO_PORT, Some(CONNECT_SECS)),
    }
}

/// Seconds of silence after which the socket of a probe gives up.
pub open spec fn probe_patience(kind: ProbeKind) -> u64 {
    match kind {
        ProbeKind::Web => 10,
        ProbeKind::Peer => 5,
    }
}

impl ProbeState {
    /// Where a probe starts, and what it does first: the web probe resolves its
    /// host, the other connects to [`PEER`] on [`ECHO_PORT`].
    pub fn start(kind: ProbeKind) -> (out: (ProbeState, ProbeAction<'static>))
        ensures
            out.0 == probe_first(kind),
            probe_begins(kind, out.1),
    {
        match kind {
            ProbeKind::Web => (
                ProbeState::Resolving,
                ProbeAction::Resolve("example.com", RESOLVE_SECS),
            ),
            ProbeKind::Peer => (
                ProbeState::Connecting,
                ProbeAction::Connect(PEER, ECHO_PORT, Some(CONNECT_SECS)),
            ),
        }
    }

    /// Takes what came of the last action and returns the next one.
    pub fn step<'a>(&mut self, kind: ProbeKind, event: ProbeEvent<'a>) -> (action: ProbeAction<'a>)
        requires
            probe_expects(kind, *old(self), event),
        ensures
            *final(self) == probe_after(kind, event),
            probe_does(kind, event, action),
    {
        match event {
            ProbeEvent::Resolved(Some(addrs)) if addrs.len() > 0 => {
                *self = ProbeState::Connecting;
                ProbeAction::Connect(addrs[0], HTTP_PORT, None)
            },
            ProbeEvent::Connected(Outcome::Done) => {
                *self = ProbeState::Sending;
                match kind {
                    ProbeKind::Web => ProbeAction::Send(
                        "HEAD / HTTP/1.1\r\nHost: example.com\r\nConnection: close\r\n\r\n",
                    ),
                    ProbeKind::Peer => ProbeAction::Send("hello from h753zi\r\n"),
                }
            },
            ProbeEvent::Sent(true) if kind == ProbeKind::Web => {
                *self = ProbeState::Reading;
                ProbeAction::Read
            },
            ProbeEvent::Sent(_) if kind == ProbeKind::Peer => {
                *self = ProbeState::Closing;
                ProbeAction::Close { response: None, flush_secs: FLUSH_SECS }
            },
            ProbeEvent::Received(Some(data)) => {
                *self = ProbeState::Closing;
                ProbeAction::Close {
                    response: Some(status_line(data)),
                    flush_secs: FLUSH_SECS,
                }
            },
            ProbeEvent::Received(None) => {
                *self = ProbeState::Closing;
                ProbeAction::Close { response: None, flush_secs: FLUSH_SECS }
            },
            _ => {
                *self = ProbeState::Over;
                ProbeAction::End
            },
        }
    }
}

/// Steps that a probe still has before it, at most.
pub open spec fn probe_steps_left(s: ProbeState) -> nat {
    match s {
        ProbeState::Resolving => 5,
        ProbeState::Connecting => 4,
        ProbeState::Sending => 3,
        ProbeState::Reading => 2,
        ProbeState::Closing => 1,
        ProbeState::Over => 0,
    }
}

/// A probe comes to an end: it starts with at most five steps before it, and
/// whatever happens each one leaves fewer.
pub proof fn law_probe_ends(kind: ProbeKind, s: ProbeState, event: ProbeEvent)
    requires
        probe_expects(kind, s, event),
    ensures
        probe_steps_left(probe_after(kind, event)) < probe_steps_left(s) <= 5,
{
}

/// Seconds of silence after which the socket of a probe gives up.
pub fn probe_timeout_secs(kind: ProbeKind) -> (secs: u64)
    ensures
        secs == probe_patience(kind),
{
    match kind {
        ProbeKind::Web => 10,
        ProbeKind::Peer => 5,
    }
}

/// Whether a run of events can follow one another from state `s`.
pub open spec fn probe_run(kind: ProbeKind, s: ProbeState, events: Seq<ProbeEvent>) -> bool
    decreases events.len(),
{
    events.len() > 0 ==> probe_expects(kind, s, events[0]) && probe_run(
        kind,
        probe_after(kind, events[0]),
        events.drop_first(),
    )
}

/// How often a state is entered in a run of events.
pub open spec fn times_entered(kind: ProbeKind, state: ProbeState, events: Seq<ProbeEvent>) -> nat
    decreases events.len(),
{
    if events.len() == 0 {
        0
    } else {
        (if probe_after(kind, events[0]) == state {
            1nat
        } else {
            0nat
        }) + times_entered(kind, state, events.drop_first())
    }
}

/// A probe connects once, and sends only where it is connected: after its first
/// action the point-to-point probe never connects again, the web probe does so
/// at most once and only when its host was resolved, and a connection that
/// fails or times out ends the probe there.
pub proof fn law_probe_connects_once(kind: ProbeKind, s: ProbeState, events: Seq<ProbeEvent>)
    requires
        probe_run(kind, s, events),
    ensures
        s != ProbeState::Resolving ==> times_entered(kind, ProbeState::Connecting, events) == 0,
        times_entered(kind, ProbeState::Connecting, events) <= 1,
        s == ProbeState::Connecting && events.len() > 0 && events[0] != ProbeEvent::Connected(
            Outcome::Done,
        ) ==> probe_after(kind, events[0]) == ProbeState::Over && events.len() == 1,
        times_entered(kind, ProbeState::Sending, events) <= 1,
        s != ProbeState::Resolving && s != ProbeState::Connecting ==> times_entered(
            kind,
            ProbeState::Sending,
            events,
        ) == 0,
    decreases events.len(),
{
    if events.len() > 0 {
        let rest = events.drop_first();
        law_probe_connects_once(kind, probe_after(kind, events[0]), rest);
        reveal_with_fuel(probe_run, 2);
    }
}

/// The first line of a response is shown without what follows its carriage
/// return, and a response without one is shown whole.
pub proof fn law_first_line_is_shown(line: Seq<u8>, rest: Seq<u8>)
    requires
        lacks(line, 0x0D),
    ensures
        first_line(line + seq![0x0Du8] + rest) == shown(line),
        first_line(line) == shown(line),
{
    let all = line + seq![0x0Du8] + rest;
    let n = line.len() as int;
    assert forall|i: int| 0 <= i < n implies all[i] != 0x0D by {
        assert(all[i] == line[i]);
    }
    lemma_position_is(all, 0x0D, n);
    lemma_position_is(line, 0x0D, n);
    assert(all.take(n) =~= line);
    assert(line.take(n) =~= line);
}

/// The echo server greets a client before anything else, reads before it
/// writes, and after whatever ends a connection listens again; it says why it
/// closed, and drops only a client that could not be greeted.
pub proof fn law_echo_server_goes_on(s: EchoState, event: EchoEvent)
    requires
        echo_expects(s, event),
    ensures
        ({
            let (next, action) = echo_next(s, event);
            &&& next == EchoState::Listening <==> action == EchoAction::Listen || action
                == EchoAction::Abort || action is Close
            &&& action == EchoAction::Greet <==> s == EchoState::Listening && event
                == EchoEvent::Accepted(true)
            &&& action == EchoAction::Abort <==> s == EchoState::Greeting && event
                == EchoEvent::Wrote(false)
            &&& action == EchoAction::Listen <==> s == EchoState::Listening && event
                == EchoEvent::Accepted(false)
            &&& action == EchoAction::Close(CloseReason::ReadFailed) <==> event
                == EchoEvent::ReadFailed
            &&& action == EchoAction::Close(CloseReason::WriteFailed) <==> s is Writing && event
                == EchoEvent::Wrote(false)
            &&& action == EchoAction::Read <==> (s == EchoState::Greeting || s is Writing) && event
                == EchoEvent::Wrote(true)
            &&& s == EchoState::Greeting && action == EchoAction::Read ==> next == (
            EchoState::Reading { total: 0 })
        }),
{
}

/// What each probe does, step by step: whom it calls, what it says, and when it
/// gives up.
pub proof fn law_probes_do_their_part(
    kind: ProbeKind,
    addrs: &[[u8; 4]],
    outcome: Outcome,
    sent: bool,
    data: &[u8],
    action: ProbeAction,
)
    ensures
        probe_does(ProbeKind::Web, ProbeEvent::Resolved(Some(addrs)), action) <==> action == (
        if addrs@.len() > 0 {
            ProbeAction::Connect(addrs@[0], 80, None)
        } else {
            ProbeAction::End
        }),
        probe_does(ProbeKind::Web, ProbeEvent::Resolved(None), action) <==> action
            == ProbeAction::End,
        probe_does(ProbeKind::Web, ProbeEvent::Connected(Outcome::Done), action) <==> (action
            matches ProbeAction::Send(text) && text@
            == "HEAD / HTTP/1.1\r\nHost: example.com\r\nConnection: close\r\n\r\n"@),
        probe_does(ProbeKind::Peer, ProbeEvent::Connected(Outcome::Done), action) <==> (action
            matches ProbeAction::Send(text) && text@ == "hello from h753zi\r\n"@),
        outcome != Outcome::Done ==> (probe_does(kind, ProbeEvent::Connected(outcome), action)
            <==> action == ProbeAction::End),
        probe_does(ProbeKind::Web, ProbeEvent::Sent(sent), action) <==> action == (if sent {
            ProbeAction::Read
        } else {
            ProbeAction::End
        }),
        probe_does(ProbeKind::Peer, ProbeEvent::Sent(sent), action) <==> action == (
        ProbeAction::Close { response: None, flush_secs: 2 }),
        probe_does(ProbeKind::Web, ProbeEvent::Received(Some(data)), action) <==> (action
            matches ProbeAction::Close { response: Some(line), flush_secs } && flush_secs == 2
            && line@ == first_line(data@)),
        probe_does(ProbeKind::Web, ProbeEvent::Received(None), action) <==> action == (
        ProbeAction::Close { response: None, flush_secs: 2 }),
        probe_does(kind, ProbeEvent::Flushed(outcome), action) <==> action == ProbeAction::End,
{
}

/// How each probe sets out: the web probe asks for its host, the other calls
/// the host at the end of the cable, and each is ready for what comes of it and
/// for nothing else. The latter resolves and reads nothing.
pub proof fn law_probes_set_out(action: ProbeAction, event: ProbeEvent)
    ensures
        probe_begins(ProbeKind::Web, action) <==> (action matches ProbeAction::Resolve(host, secs)
            && host@ == "example.com"@ && secs == 10),
        probe_begins(ProbeKind::Peer, action) <==> (action matches ProbeAction::Connect(
            addr,
            port,
            secs,
        ) && addr@ == seq![192u8, 168u8, 50u8, 10u8] && port == 1234 && secs == Some(5u64)),
        probe_expects(ProbeKind::Web, probe_first(ProbeKind::Web), event) <==> event is Resolved,
        probe_expects(ProbeKind::Peer, probe_first(ProbeKind::Peer), event) <==> event is Connected,
        !probe_expects(ProbeKind::Peer, ProbeState::Resolving, event),
        !probe_expects(ProbeKind::Peer, ProbeState::Reading, event),
        probe_patience(ProbeKind::Web) == 10,
        probe_patience(ProbeKind::Peer) == 5,
{
    assert(PEER@ =~= seq![192u8, 168u8, 50u8, 10u8]);
    if let ProbeAction::Connect(addr, port, secs) = action {
        if addr@ == PEER@ {
            assert(addr =~= PEER);
        }
    }
}

/// Whatever comes of what a probe does, it takes it: an event can follow an
/// action exactly when it is what such an action comes to. One that is over
/// takes nothing more.
pub proof fn law_probe_takes_what_comes(
    kind: ProbeKind,
    event: ProbeEvent,
    action: ProbeAction,
    next: ProbeEvent,
)
    requires
        probe_does(kind, event, action),
        event is Resolved || event is Received ==> kind == ProbeKind::Web,
    ensures
        probe_expects(kind, probe_after(kind, event), next) <==> match action {
            ProbeAction::Resolve(_, _) => next is Resolved,
            ProbeAction::Connect(_, _, _) => next is Connected,
            ProbeAction::Send(_) => next is Sent,
            ProbeAction::Read => next is Received,
            ProbeAction::Close { .. } => next is Flushed,
            ProbeAction::End => false,
        },
{
}

/// The echo server takes whatever comes of its last action, as long as it can
/// count the bytes.
pub proof fn law_echo_takes_what_comes(s: EchoState, event: EchoEvent, next: EchoEvent)
    requires
        echo_expects(s, event),
        next matches EchoEvent::Received(data) ==> data@.len() + (match s {
            EchoState::Writing { total } => total,
            _ => 0,
        }) <= usize::MAX,
    ensures
        echo_expects(echo_next(s, event).0, next) <==> match echo_next(s, event).1 {
            EchoAction::Greet => next is Wrote,
            EchoAction::Write(_) => next is Wrote,
            EchoAction::Read => next is ReadFailed || next is Received,
            _ => next is Accepted,
        },
{
}

/// The addresses, ports and time limits that the network relies on.
pub proof fn law_network_is_numbered()
    ensures
        ADDRESS@ == seq![192u8, 168u8, 50u8, 11u8],
        PEER@ == seq![192u8, 168u8, 50u8, 10u8],
        PREFIX_LEN == 24,
        ECHO_PORT == 1234,
        HTTP_PORT == 80,
        RESOLVE_SECS == 10,
        CONNECT_SECS == 5,
        FLUSH_SECS == 2,
        ECHO_TIMEOUT_SECS == 30,
{
    assert(ADDRESS@ =~= seq![192u8, 168u8, 50u8, 11u8]);
    assert(PEER@ =~= seq![192u8, 168u8, 50u8, 10u8]);
}

} // verus!
