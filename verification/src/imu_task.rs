//! Running the IMU: reset, bring-up, and the steady polling for reports.
//!
//! The sensor announces itself in stages after a reset: advertisement, "reset
//! complete" on the executable channel, then an "initialize" command response
//! on the control channel. Commands sent before the last one are dropped.
//!
//! No INT pin is available, so the sensor is polled. Each part here is a state
//! and what to do in it; whoever holds the bus does it and reports back.

use vstd::prelude::*;
use crate::clock::{after, secs, since, TICK_HZ};
use crate::imu::{
    acceleration_report, control_of, decode_control, decode_input, is_report, joined,
    law_acceleration_reads_back, law_orientation_reads_back, newest_acceleration,
    newest_orientation, reports, rotation_report, sensor_reports, Acceleration, ControlReport,
    Orientation, CH_CONTROL, CH_EXECUTABLE, CH_INPUT, COMMAND_INITIALIZE, REPORT_ACCELEROMETER,
    REPORT_COMMAND_REQUEST, REPORT_COMMAND_RESPONSE, REPORT_GET_FEATURE_RESPONSE,
    REPORT_INTERVAL_US, REPORT_PRODUCT_ID_REQUEST, REPORT_ROTATION_VECTOR, REPORT_SET_FEATURE,
};
use crate::le::{le_bytes, lemma_le_bytes_len, to_le};
use crate::shtp::{number_after, numbers_after, packet_bytes, Shtp, MAX_PACKET};
use crate::telemetry::Telemetry;

verus! {

/// Poll cadence when the last read came back empty, in milliseconds.
pub const IDLE_POLL_MS: u64 = 10;

/// Pause after the sensor did not acknowledge its address while it is being
/// waited for, in milliseconds.
pub const NACK_PAUSE_MS: u64 = 50;

/// If no report arrives for this many seconds the sensor is re-initialised.
pub const SILENCE_RESTART_SECS: u64 = 3;

/// Retries of the reset command; the sensor does not acknowledge while busy.
pub const RESET_RETRIES: u8 = 10;

/// How often a report is asked for before going on without it.
pub const FEATURE_ATTEMPTS: u8 = 3;

/// What a read of the sensor came to.
#[derive(Clone, Copy)]
pub enum ReadOutcome<'a> {
    /// A packet on a channel.
    Packet(u8, &'a [u8]),
    /// Nothing pending.
    Nothing,
    /// The sensor did not acknowledge its address.
    Nack,
    /// Another bus error.
    Failed,
}

/// A packet that is being waited for.
#[derive(Clone, Copy, Debug, PartialEq, Eq, Structural)]
pub enum Awaited {
    ResetComplete,
    Initialised,
    /// The response that a report is on.
    Feature(u8),
}

/// Whether a packet is the one that is waited for.
pub open spec fn is_awaited(what: Awaited, channel: u8, p: Seq<u8>) -> bool {
    match what {
        Awaited::ResetComplete => channel == CH_EXECUTABLE && p.len() > 0 && p[0] == 1,
        Awaited::Initialised => channel == CH_CONTROL && p.len() > 2 && p[0]
            == REPORT_COMMAND_RESPONSE && p[2] == COMMAND_INITIALIZE,
        Awaited::Feature(report) => channel == CH_CONTROL && p.len() > 1 && p[0]
            == REPORT_GET_FEATURE_RESPONSE && p[1] == report,
    }
}

fn awaited(what: Awaited, channel: u8, p: &[u8]) -> (b: bool)
    ensures
        b == is_awaited(what, channel, p@),
{
    match what {
        Awaited::ResetComplete => channel == CH_EXECUTABLE && p.len() > 0 && p[0] == 1,
        Awaited::Initialised => channel == CH_CONTROL && p.len() > 2 && p[0]
            == REPORT_COMMAND_RESPONSE && p[2] == COMMAND_INITIALIZE,
        Awaited::Feature(report) => channel == CH_CONTROL && p.len() > 1 && p[0]
            == REPORT_GET_FEATURE_RESPONSE && p[1] == report,
    }
}

/// What to do while waiting for a packet.
#[derive(Clone, Copy, Debug, PartialEq, Eq, Structural)]
pub enum WaitStep {
    /// It is there.
    Matched,
    /// Read again. A control packet seen on the way is worth telling.
    ReadAgain(ControlReport),
    /// Sleep for so many milliseconds, then read again.
    Sleep(u64),
    /// The bus is in trouble.
    Fail,
}

/// What a read means to one who waits. Control packets seen on the way are
/// told; input reports are dropped. A missing acknowledgement is tolerated:
/// the sensor is often still restarting.
pub open spec fn wait_step_of(what: Awaited, ev: ReadOutcome) -> WaitStep {
    match ev {
        ReadOutcome::Packet(channel, p) => if is_awaited(what, channel, p@) {
            WaitStep::Matched
        } else if channel == CH_CONTROL {
            WaitStep::ReadAgain(control_of(p@))
        } else {
            WaitStep::ReadAgain(ControlReport::Nothing)
        },
        ReadOutcome::Nothing => WaitStep::Sleep(IDLE_POLL_MS),
        ReadOutcome::Nack => WaitStep::Sleep(NACK_PAUSE_MS),
        ReadOutcome::Failed => WaitStep::Fail,
    }
}

pub fn wait_step(what: Awaited, ev: ReadOutcome) -> (step: WaitStep)
    ensures
        step == wait_step_of(what, ev),
{
    match ev {
        ReadOutcome::Packet(channel, p) => if awaited(what, channel, p) {
            WaitStep::Matched
        } else if channel == CH_CONTROL {
            WaitStep::ReadAgain(decode_control(p))
        } else {
            WaitStep::ReadAgain(ControlReport::Nothing)
        },
        ReadOutcome::Nothing => WaitStep::Sleep(IDLE_POLL_MS),
        ReadOutcome::Nack => WaitStep::Sleep(NACK_PAUSE_MS),
        ReadOutcome::Failed => WaitStep::Fail,
    }
}

/// The instant at which a wait of `timeout_secs` that starts `now` is over.
pub open spec fn deadline_of(now: u64, timeout_secs: u64) -> int {
    now + timeout_secs * TICK_HZ
}

/// The instant at which a wait of `timeout_secs` that starts `now` is over.
pub fn wait_deadline(now: u64, timeout_secs: u64) -> (deadline: u64)
    requires
        now + timeout_secs * TICK_HZ <= u64::MAX,
    ensures
        deadline == deadline_of(now, timeout_secs),
{
    after(now, secs(timeout_secs))
}

/// Whether a wait goes on.
pub fn keep_waiting(now: u64, deadline: u64) -> (b: bool)
    ensures
        b == (now < deadline),
{
    now < deadline
}

/// A wait for a packet, until an instant.
#[derive(Clone, Copy, Debug, PartialEq, Eq, Structural)]
pub struct Wait {
    pub what: Awaited,
    pub deadline: u64,
}

/// What happened to one who waits.
#[derive(Clone, Copy)]
pub enum WaitEvent<'a> {
    /// It is this instant, and the next read could begin.
    Time(u64),
    /// A read came to this.
    Read(ReadOutcome<'a>),
}

/// What one who waits does next.
#[derive(Clone, Copy, Debug, PartialEq, Eq, Structural)]
pub enum WaitAction {
    /// Read from the sensor.
    Read,
    /// Sleep for so many milliseconds, then look at the clock. A control packet
    /// seen on the way is worth telling.
    Pause(u64, ControlReport),
    /// The wait is over.
    End(BringUpEvent),
}

impl Wait {
    /// What `event` leads to. A read begins only before the deadline; one that
    /// began in time counts whenever it ends.
    pub open spec fn next(self, event: WaitEvent) -> WaitAction {
        match event {
            WaitEvent::Time(now) => if now < self.deadline {
                WaitAction::Read
            } else {
                WaitAction::End(BringUpEvent::TimedOut)
            },
            WaitEvent::Read(ev) => match wait_step_of(self.what, ev) {
                WaitStep::Matched => WaitAction::End(BringUpEvent::Matched),
                WaitStep::ReadAgain(report) => WaitAction::Pause(0, report),
                WaitStep::Sleep(ms) => WaitAction::Pause(ms, ControlReport::Nothing),
                WaitStep::Fail => WaitAction::End(BringUpEvent::BusError),
            },
        }
    }

    /// A wait of `timeout_secs` that starts `now`.
    pub open spec fn begun(what: Awaited, now: u64, timeout_secs: u64) -> Wait {
        Wait { what, deadline: deadline_of(now, timeout_secs) as u64 }
    }

    /// A wait of `timeout_secs` that starts `now`.
    pub fn start(what: Awaited, now: u64, timeout_secs: u64) -> (w: Wait)
        requires
            now + timeout_secs * TICK_HZ <= u64::MAX,
        ensures
            w == Wait::begun(what, now, timeout_secs),
    {
        Wait { what, deadline: wait_deadline(now, timeout_secs) }
    }

    /// Takes what happened and returns what to do.
    pub fn step(&self, event: WaitEvent) -> (action: WaitAction)
        ensures
            action == self.next(event),
    {
        match event {
            WaitEvent::Time(now) => if keep_waiting(now, self.deadline) {
                WaitAction::Read
            } else {
                WaitAction::End(BringUpEvent::TimedOut)
            },
            WaitEvent::Read(ev) => match wait_step(self.what, ev) {
                WaitStep::Matched => WaitAction::End(BringUpEvent::Matched),
                WaitStep::ReadAgain(report) => WaitAction::Pause(0, report),
                WaitStep::Sleep(ms) => WaitAction::Pause(ms, ControlReport::Nothing),
                WaitStep::Fail => WaitAction::End(BringUpEvent::BusError),
            },
        }
    }
}

/// One turn of a wait: the instant at which its read could begin, and what the
/// read comes to where it is made.
pub struct Turn<'a> {
    pub begun: u64,
    pub outcome: ReadOutcome<'a>,
}

/// How a wait ends in a run of turns, or nothing while it goes on.
pub open spec fn wait_result(w: Wait, turns: Seq<Turn>) -> Option<BringUpEvent>
    decreases turns.len(),
{
    if turns.len() == 0 {
        None
    } else {
        match w.next(WaitEvent::Time(turns[0].begun)) {
            WaitAction::End(e) => Some(e),
            _ => match w.next(WaitEvent::Read(turns[0].outcome)) {
                WaitAction::End(e) => Some(e),
                _ => wait_result(w, turns.drop_first()),
            },
        }
    }
}

/// Whether a turn's read begins in time.
pub open spec fn in_time(w: Wait, turn: Turn) -> bool {
    turn.begun < w.deadline
}

/// Whether a turn's read is the packet that is waited for.
pub open spec fn brings_it(w: Wait, turn: Turn) -> bool {
    turn.outcome matches ReadOutcome::Packet(channel, p) && is_awaited(w.what, channel, p@)
}

/// Whether a turn's read fails other than by a missing acknowledgement.
pub open spec fn fails(turn: Turn) -> bool {
    turn.outcome is Failed
}

/// Whether the packet comes in turn `i`, in time and with no failure before.
pub open spec fn matched_at(w: Wait, turns: Seq<Turn>, i: int) -> bool {
    &&& 0 <= i < turns.len()
    &&& in_time(w, turns[i])
    &&& brings_it(w, turns[i])
    &&& forall|j: int| 0 <= j < i ==> !fails(#[trigger] turns[j])
}

/// Whether turn `i` fails, in time, as the first and with no match before.
pub open spec fn failed_at(w: Wait, turns: Seq<Turn>, i: int) -> bool {
    &&& 0 <= i < turns.len()
    &&& in_time(w, turns[i])
    &&& fails(turns[i])
    &&& forall|j: int|
        0 <= j < i ==> !fails(#[trigger] turns[j]) && !brings_it(w, turns[j])
}

/// The first turn that ends a wait, or the number of turns.
proof fn lemma_deciding_turn(w: Wait, turns: Seq<Turn>) -> (k: int)
    ensures
        0 <= k <= turns.len(),
        forall|j: int|
            0 <= j < k ==> in_time(w, #[trigger] turns[j]) && !brings_it(w, turns[j]) && !fails(
                turns[j],
            ),
        k == turns.len() ==> wait_result(w, turns) is None,
        k < turns.len() ==> wait_result(w, turns) == Some(
            if !in_time(w, turns[k]) {
                BringUpEvent::TimedOut
            } else if brings_it(w, turns[k]) {
                BringUpEvent::Matched
            } else {
                BringUpEvent::BusError
            },
        ) && (!in_time(w, turns[k]) || brings_it(w, turns[k]) || fails(turns[k])),
    decreases turns.len(),
{
    if turns.len() == 0 {
        0
    } else if !in_time(w, turns[0]) || brings_it(w, turns[0]) || fails(turns[0]) {
        0
    } else {
        let rest = turns.drop_first();
        let k = lemma_deciding_turn(w, rest) + 1;
        assert forall|j: int| 0 <= j < k implies in_time(w, #[trigger] turns[j]) && !brings_it(
            w,
            turns[j],
        ) && !fails(turns[j]) by {
            if j > 0 {
                assert(turns[j] == rest[j - 1]);
            }
        }
        if k < turns.len() {
            assert(turns[k] == rest[k - 1]);
        }
        k
    }
}

/// A wait is for what it was started for, and lasts as many seconds as it was
/// given: reads begin until they have passed, and none after.
pub proof fn law_wait_lasts_its_seconds(what: Awaited, now: u64, timeout_secs: u64, then: u64)
    requires
        now + timeout_secs * 32_768 <= u64::MAX,
    ensures
        Wait::begun(what, now, timeout_secs).what == what,
        Wait::begun(what, now, timeout_secs).next(WaitEvent::Time(then)) == (if then - now
            < timeout_secs * 32_768 {
            WaitAction::Read
        } else {
            WaitAction::End(BringUpEvent::TimedOut)
        }),
{
}

/// How a wait ends. It is matched exactly when some read begun before the
/// deadline is the packet waited for and no earlier read failed other than by a
/// missing acknowledgement; a bus error is the first such failure, in time and
/// before any match; and it times out otherwise, once the deadline is reached.
pub proof fn law_wait_ends_as_it_should(w: Wait, turns: Seq<Turn>)
    requires
        forall|i: int, j: int|
            0 <= i <= j < turns.len() ==> (#[trigger] turns[i]).begun <= (
            #[trigger] turns[j]).begun,
    ensures
        wait_result(w, turns) == Some(BringUpEvent::Matched) <==> exists|i: int|
            matched_at(w, turns, i),
        wait_result(w, turns) == Some(BringUpEvent::BusError) <==> exists|i: int|
            failed_at(w, turns, i),
        wait_result(w, turns) == Some(BringUpEvent::TimedOut) <==> {
            &&& !(exists|i: int| matched_at(w, turns, i))
            &&& !(exists|i: int| failed_at(w, turns, i))
            &&& turns.len() > 0 && !in_time(w, turns.last())
        },
        wait_result(w, turns) != Some(BringUpEvent::Done),
{
    let k = lemma_deciding_turn(w, turns);
    assert forall|i: int| matched_at(w, turns, i) implies wait_result(w, turns) == Some(
        BringUpEvent::Matched,
    ) by {
        assert(k <= i);
        assert(turns[k].begun <= turns[i].begun);
        if k < i {
            assert(!fails(turns[k]));
        }
    }
    assert forall|i: int| failed_at(w, turns, i) implies wait_result(w, turns) == Some(
        BringUpEvent::BusError,
    ) by {
        assert(k <= i);
        assert(turns[k].begun <= turns[i].begun);
        if k < i {
            assert(!fails(turns[k]) && !brings_it(w, turns[k]));
        }
    }
    if k < turns.len() {
        if !in_time(w, turns[k]) {
            assert(turns[k].begun <= turns[turns.len() - 1].begun);
        } else if brings_it(w, turns[k]) {
            assert(matched_at(w, turns, k));
        } else {
            assert(failed_at(w, turns, k));
        }
    }
}

/// Where the bring-up stands.
#[derive(Clone, Copy, Debug, PartialEq, Eq, Structural)]
pub enum BringUp {
    /// Sending the reset command, after so many failures.
    Resetting { failures: u8 },
    /// Pausing before the reset command is sent again.
    ResetPause { failures: u8 },
    /// Letting the sensor restart.
    Settling,
    /// Waiting for "reset complete".
    AwaitingReset,
    /// Waiting for "initialize" after a reset.
    AwaitingInit,
    /// Asking the hub to re-initialise itself, in case RST is not wired.
    Reinitialising,
    /// Waiting for "initialize" after that.
    AwaitingReinit,
    /// Asking what the sensor is.
    Identifying,
    /// Asking for a report, for the given time.
    Enabling { which: u8, attempt: u8 },
    /// Waiting for the response that the report is on.
    AwaitingFeature { which: u8, attempt: u8 },
    /// The reports are on, or were given up on.
    Ready,
    /// A bus error ended the bring-up.
    Failed,
}

/// What happened to the last thing done.
#[derive(Clone, Copy, Debug, PartialEq, Eq, Structural)]
pub enum BringUpEvent {
    /// A transfer went through, or a sleep is over.
    Done,
    /// A transfer failed.
    BusError,
    /// The packet waited for came.
    Matched,
    /// It did not come in time.
    TimedOut,
}

/// What the bring-up wants done.
pub enum BringUpAction {
    /// Write these bytes to the sensor.
    Write(Vec<u8>),
    /// Sleep for so many milliseconds.
    Sleep(u64),
    /// Wait for a packet, for so many seconds at most.
    Wait(Awaited, u64),
    /// The sensor is up.
    Finish,
    /// Start over later.
    GiveUp,
}

/// The reports that are asked for, in order.
pub open spec fn wanted_report(which: u8) -> u8 {
    if which == 0 {
        REPORT_ROTATION_VECTOR
    } else {
        REPORT_ACCELEROMETER
    }
}

/// The state after the last word on a report.
pub open spec fn after_report(which: u8) -> BringUp {
    if which == 0 {
        BringUp::Enabling { which: 1, attempt: 1 }
    } else {
        BringUp::Ready
    }
}

impl BringUp {
    pub open spec fn wf(self) -> bool {
        match self {
            BringUp::Resetting { failures } => failures <= RESET_RETRIES,
            BringUp::ResetPause { failures } => 1 <= failures <= RESET_RETRIES,
            BringUp::Enabling { which, attempt } => which <= 1 && 1 <= attempt <= FEATURE_ATTEMPTS,
            BringUp::AwaitingFeature { which, attempt } => which <= 1 && 1 <= attempt
                <= FEATURE_ATTEMPTS,
            _ => true,
        }
    }

    /// Whether `ev` can happen in this state: to a transfer, a sleep or a wait.
    pub open spec fn accepts(self, ev: BringUpEvent) -> bool {
        match self {
            BringUp::Resetting { .. }
            | BringUp::Reinitialising
            | BringUp::Identifying
            | BringUp::Enabling { .. } => ev == BringUpEvent::Done || ev == BringUpEvent::BusError,
            BringUp::ResetPause { .. } | BringUp::Settling => ev == BringUpEvent::Done,
            BringUp::AwaitingReset
            | BringUp::AwaitingInit
            | BringUp::AwaitingReinit
            | BringUp::AwaitingFeature { .. } => ev != BringUpEvent::Done,
            BringUp::Ready | BringUp::Failed => false,
        }
    }

    /// The state that `ev` leads to.
    pub open spec fn next(self, ev: BringUpEvent) -> BringUp {
        match self {
            BringUp::Resetting { failures } => if ev == BringUpEvent::Done {
                BringUp::Settling
            } else if failures < RESET_RETRIES {
                BringUp::ResetPause { failures: (failures + 1) as u8 }
            } else {
                BringUp::Failed
            },
            BringUp::ResetPause { failures } => BringUp::Resetting { failures },
            BringUp::Settling => BringUp::AwaitingReset,
            _ => if ev == BringUpEvent::BusError {
                BringUp::Failed
            } else {
                match self {
                    BringUp::AwaitingReset => if ev == BringUpEvent::Matched {
                        BringUp::AwaitingInit
                    } else {
                        BringUp::Reinitialising
                    },
                    BringUp::Reinitialising => BringUp::AwaitingReinit,
                    BringUp::AwaitingInit | BringUp::AwaitingReinit => BringUp::Identifying,
                    BringUp::Identifying => BringUp::Enabling { which: 0, attempt: 1 },
                    BringUp::Enabling { which, attempt } => BringUp::AwaitingFeature {
                        which,
                        attempt,
                    },
                    BringUp::AwaitingFeature { which, attempt } => if ev == BringUpEvent::TimedOut
                        && attempt < FEATURE_ATTEMPTS {
                        BringUp::Enabling { which, attempt: (attempt + 1) as u8 }
                    } else {
                        after_report(which)
                    },
                    _ => self,
                }
            },
        }
    }

    /// Where the bring-up starts.
    pub open spec fn first() -> BringUp {
        BringUp::Resetting { failures: 0 }
    }

    /// The command that a state sends, if it sends one: channel and payload.
    pub open spec fn command(self, command_seq: u8) -> Option<(u8, Seq<u8>)> {
        match self {
            BringUp::Resetting { .. } => Some((CH_EXECUTABLE, seq![1u8])),
            BringUp::Reinitialising => Some((CH_CONTROL, reinit_command(command_seq))),
            BringUp::Identifying => Some((CH_CONTROL, seq![REPORT_PRODUCT_ID_REQUEST, 0u8])),
            BringUp::Enabling { which, .. } => Some(
                (CH_CONTROL, feature_command(wanted_report(which), REPORT_INTERVAL_US)),
            ),
            _ => None,
        }
    }

    /// What a state that sends nothing does.
    pub open spec fn pause(self) -> BringUpAction {
        match self {
            BringUp::ResetPause { .. } => BringUpAction::Sleep(100),
            BringUp::Settling => BringUpAction::Sleep(300),
            BringUp::AwaitingReset => BringUpAction::Wait(Awaited::ResetComplete, 2),
            BringUp::AwaitingInit => BringUpAction::Wait(Awaited::Initialised, 2),
            BringUp::AwaitingReinit => BringUpAction::Wait(Awaited::Initialised, 3),
            BringUp::AwaitingFeature { which, .. } => BringUpAction::Wait(
                Awaited::Feature(wanted_report(which)),
                1,
            ),
            BringUp::Ready => BringUpAction::Finish,
            _ => BringUpAction::GiveUp,
        }
    }
}

/// `n` zero bytes.
pub open spec fn zero_bytes(n: nat) -> Seq<u8> {
    Seq::new(n, |i: int| 0u8)
}

/// The SH-2 command that re-initialises the sensor hub.
pub open spec fn reinit_command(command_seq: u8) -> Seq<u8> {
    seq![REPORT_COMMAND_REQUEST, command_seq, COMMAND_INITIALIZE, 1u8] + zero_bytes(8)
}

/// The SH-2 command that turns a report on: flags and change sensitivity zero,
/// the interval, batch interval and sensor-specific configuration zero.
pub open spec fn feature_command(report: u8, interval_us: u32) -> Seq<u8> {
    seq![REPORT_SET_FEATURE, report] + zero_bytes(3) + le_bytes(interval_us as nat, 4)
        + zero_bytes(8)
}

/// The transport after a packet went out on a channel.
pub open spec fn sent_on(s: Shtp, before: Shtp, channel: u8) -> bool {
    &&& s.seq@ == numbers_after(before.seq@, channel)
    &&& s.buf == before.buf
}

fn push_zeros(v: &mut Vec<u8>, n: usize)
    ensures
        final(v)@ == old(v)@ + zero_bytes(n as nat),
{
    let mut i: usize = 0;
    let ghost before = v@;
    assert(v@ =~= before + zero_bytes(0));
    while i < n
        invariant
            i <= n,
            v@ =~= before + zero_bytes(i as nat),
        decreases n - i,
    {
        v.push(0);
        i = i + 1;
    }
}

/// Frames the command that turns a report on.
pub fn set_feature(shtp: &mut Shtp, report: u8, interval_us: u32) -> (out: Vec<u8>)
    ensures
        out@ == packet_bytes(
            CH_CONTROL,
            old(shtp).seq[CH_CONTROL as int],
            feature_command(report, interval_us),
        ),
        sent_on(*final(shtp), *old(shtp), CH_CONTROL),
        final(shtp).command_seq == old(shtp).command_seq,
{
    let mut cmd: Vec<u8> = Vec::new();
    cmd.push(REPORT_SET_FEATURE);
    cmd.push(report);
    push_zeros(&mut cmd, 3);
    let mut interval: Vec<u8> = to_le(interval_us as u64, 4);
    cmd.append(&mut interval);
    push_zeros(&mut cmd, 8);
    proof {
        lemma_le_bytes_len(interval_us as nat, 4);
        assert(cmd@ =~= feature_command(report, interval_us));
    }
    shtp.write(CH_CONTROL, cmd.as_slice())
}

impl BringUp {
    /// The bring-up starts with the reset command.
    pub fn start() -> (s: BringUp)
        ensures
            s == BringUp::first(),
            s.wf(),
    {
        BringUp::Resetting { failures: 0 }
    }

    /// The state that `ev` leads to.
    pub fn advance(self, ev: BringUpEvent) -> (s: BringUp)
        requires
            self.wf(),
            self.accepts(ev),
        ensures
            s == self.next(ev),
            s.wf(),
    {
        let failed: bool = ev == BringUpEvent::BusError;
        match self {
            BringUp::Resetting { failures } => if !failed {
                BringUp::Settling
            } else if failures < RESET_RETRIES {
                BringUp::ResetPause { failures: failures + 1 }
            } else {
                BringUp::Failed
            },
            BringUp::ResetPause { failures } => BringUp::Resetting { failures },
            BringUp::Settling => BringUp::AwaitingReset,
            BringUp::AwaitingReset => if failed {
                BringUp::Failed
            } else if ev == BringUpEvent::Matched {
                BringUp::AwaitingInit
            } else {
                BringUp::Reinitialising
            },
            BringUp::AwaitingInit => if failed {
                BringUp::Failed
            } else {
                BringUp::Identifying
            },
            BringUp::Reinitialising => if failed {
                BringUp::Failed
            } else {
                BringUp::AwaitingReinit
            },
            BringUp::AwaitingReinit => if failed {
                BringUp::Failed
            } else {
                BringUp::Identifying
            },
            BringUp::Identifying => if failed {
                BringUp::Failed
            } else {
                BringUp::Enabling { which: 0, attempt: 1 }
            },
            BringUp::Enabling { which, attempt } => if failed {
                BringUp::Failed
            } else {
                BringUp::AwaitingFeature { which, attempt }
            },
            BringUp::AwaitingFeature { which, attempt } => if failed {
                BringUp::Failed
            } else if ev == BringUpEvent::TimedOut && attempt < FEATURE_ATTEMPTS {
                BringUp::Enabling { which, attempt: attempt + 1 }
            } else if which == 0 {
                BringUp::Enabling { which: 1, attempt: 1 }
            } else {
                BringUp::Ready
            },
            BringUp::Ready => BringUp::Ready,
            BringUp::Failed => BringUp::Failed,
        }
    }

    /// The number of the next command once this state's own has gone out.
    pub open spec fn command_seq_after(self, n: u8) -> u8 {
        if self == BringUp::Reinitialising {
            number_after(n)
        } else {
            n
        }
    }

    /// What this state wants done. A command takes its numbers from `shtp`.
    pub fn action(&self, shtp: &mut Shtp) -> (out: BringUpAction)
        requires
            self.wf(),
        ensures
            match self.command(old(shtp).command_seq) {
                Some((channel, payload)) => {
                    &&& out matches BringUpAction::Write(bytes)
                    &&& bytes@ == packet_bytes(channel, old(shtp).seq[channel as int], payload)
                    &&& sent_on(*final(shtp), *old(shtp), channel)
                },
                None => {
                    &&& out == self.pause()
                    &&& *final(shtp) == *old(shtp)
                },
            },
            final(shtp).command_seq == self.command_seq_after(old(shtp).command_seq),
    {
        match *self {
            BringUp::Resetting { failures: _ } => {
                let mut cmd: Vec<u8> = Vec::new();
                cmd.push(1);
                assert(cmd@ =~= seq![1u8]);
                BringUpAction::Write(shtp.write(CH_EXECUTABLE, cmd.as_slice()))
            },
            BringUp::Reinitialising => {
                let mut cmd: Vec<u8> = Vec::new();
                cmd.push(REPORT_COMMAND_REQUEST);
                cmd.push(shtp.next_command_seq());
                cmd.push(COMMAND_INITIALIZE);
                cmd.push(1);
                push_zeros(&mut cmd, 8);
                assert(cmd@ =~= reinit_command(old(shtp).command_seq));
                BringUpAction::Write(shtp.write(CH_CONTROL, cmd.as_slice()))
            },
            BringUp::Identifying => {
                let mut cmd: Vec<u8> = Vec::new();
                cmd.push(REPORT_PRODUCT_ID_REQUEST);
                cmd.push(0);
                assert(cmd@ =~= seq![REPORT_PRODUCT_ID_REQUEST, 0u8]);
                BringUpAction::Write(shtp.write(CH_CONTROL, cmd.as_slice()))
            },
            BringUp::Enabling { which, attempt: _ } => {
                let report: u8 = if which == 0 {
                    REPORT_ROTATION_VECTOR
                } else {
                    REPORT_ACCELEROMETER
                };
                BringUpAction::Write(set_feature(shtp, report, REPORT_INTERVAL_US))
            },
            BringUp::ResetPause { failures: _ } => BringUpAction::Sleep(100),
            BringUp::Settling => BringUpAction::Sleep(300),
            BringUp::AwaitingReset => BringUpAction::Wait(Awaited::ResetComplete, 2),
            BringUp::AwaitingInit => BringUpAction::Wait(Awaited::Initialised, 2),
            BringUp::AwaitingReinit => BringUpAction::Wait(Awaited::Initialised, 3),
            BringUp::AwaitingFeature { which, attempt: _ } => BringUpAction::Wait(
                Awaited::Feature(
                    if which == 0 {
                        REPORT_ROTATION_VECTOR
                    } else {
                        REPORT_ACCELEROMETER
                    },
                ),
                1,
            ),
            BringUp::Ready => BringUpAction::Finish,
            BringUp::Failed => BringUpAction::GiveUp,
        }
    }
}

/// How far a state is from the end of the bring-up, in steps at most.
pub open spec fn steps_left(s: BringUp) -> int {
    match s {
        BringUp::Ready | BringUp::Failed => 0,
        BringUp::AwaitingFeature { which, attempt } => 2 * (FEATURE_ATTEMPTS - attempt) + 1 + (1
            - which) * 2 * FEATURE_ATTEMPTS,
        BringUp::Enabling { which, attempt } => 2 * (FEATURE_ATTEMPTS - attempt) + 2 + (1 - which)
            * 2 * FEATURE_ATTEMPTS,
        BringUp::Identifying => 1 + 4 * FEATURE_ATTEMPTS,
        BringUp::AwaitingReinit | BringUp::AwaitingInit => 2 + 4 * FEATURE_ATTEMPTS,
        BringUp::Reinitialising => 3 + 4 * FEATURE_ATTEMPTS,
        BringUp::AwaitingReset => 4 + 4 * FEATURE_ATTEMPTS,
        BringUp::Settling => 5 + 4 * FEATURE_ATTEMPTS,
        BringUp::Resetting { failures } => 6 + 4 * FEATURE_ATTEMPTS + 2 * (RESET_RETRIES
            - failures),
        BringUp::ResetPause { failures } => 7 + 4 * FEATURE_ATTEMPTS + 2 * (RESET_RETRIES
            - failures),
    }
}

/// The bring-up comes to an end, whatever the sensor does: every step brings it
/// closer, and only at the end is there no step left.
pub proof fn law_bring_up_ends(s: BringUp, ev: BringUpEvent)
    requires
        s.wf(),
        s.accepts(ev),
    ensures
        s.next(ev).wf(),
        0 <= steps_left(s.next(ev)) < steps_left(s),
        steps_left(s) <= steps_left(BringUp::first()) == 38,
{
    match s {
        BringUp::AwaitingFeature { which, attempt } => {
            assert(which == 0 || which == 1);
        },
        BringUp::Enabling { which, attempt } => {
            assert(which == 0 || which == 1);
        },
        _ => {},
    }
}

/// A report that was not acknowledged is asked for again in the same words, up
/// to three times in all; after that, and after an acknowledgement, the next
/// report follows, and behind the second the sensor is ready.
pub proof fn law_unacknowledged_report_is_asked_for_again(which: u8, attempt: u8, command_seq: u8)
    requires
        (BringUp::AwaitingFeature { which, attempt }).wf(),
    ensures
        ({
            let waiting = BringUp::AwaitingFeature { which, attempt };
            let asked = BringUp::Enabling { which, attempt };
            let again = waiting.next(BringUpEvent::TimedOut);
            let done = if which == 0 {
                BringUp::Enabling { which: 1, attempt: 1 }
            } else {
                BringUp::Ready
            };
            &&& asked.next(BringUpEvent::Done) == waiting
            &&& attempt < 3 ==> again.command(command_seq) == asked.command(command_seq)
            &&& attempt < 3 ==> again == (BringUp::Enabling { which, attempt: (attempt + 1) as u8 })
            &&& attempt >= 3 ==> again == done
            &&& waiting.next(BringUpEvent::Matched) == done
        }),
{
}

/// The sensor is not taken for ready before both reports were asked for: the
/// state before `Ready` waits for the accelerometer, and that report is first
/// asked for when the word on the rotation vector is in.
pub proof fn law_ready_after_both_reports(s: BringUp, ev: BringUpEvent)
    requires
        s.wf(),
        s.accepts(ev),
    ensures
        s.next(ev) == BringUp::Ready ==> (s matches BringUp::AwaitingFeature { which, .. }
            && which == 1),
        s.next(ev) matches BringUp::AwaitingFeature { which, attempt } ==> s == (
        BringUp::Enabling { which, attempt }),
        s.next(ev) == (BringUp::Enabling { which: 1, attempt: 1 }) ==> (s matches
            BringUp::AwaitingFeature { which, .. } && which == 0),
        s.next(ev) == (BringUp::Enabling { which: 0, attempt: 1 }) ==> s == BringUp::Identifying,
{
}

/// A bus error ends the bring-up, but for the reset command, which is retried
/// ten times.
pub proof fn law_bus_error_ends_bring_up(s: BringUp)
    requires
        s.wf(),
        s.accepts(BringUpEvent::BusError),
    ensures
        s.next(BringUpEvent::BusError) == (match s {
            BringUp::Resetting { failures } => if failures < 10 {
                BringUp::ResetPause { failures: (failures + 1) as u8 }
            } else {
                BringUp::Failed
            },
            _ => BringUp::Failed,
        }),
{
}

/// What to do after a read in the steady state.
#[derive(Clone, Copy, Debug, PartialEq, Eq, Structural)]
pub enum SteadyStep {
    /// Read again. A control packet is worth telling.
    ReadAgain(ControlReport),
    /// Sleep for so many milliseconds, then read again.
    Sleep(u64),
    /// Bring the sensor up anew.
    Restart,
}

/// The store after an input packet that arrived at `now`.
pub open spec fn with_input(t: Telemetry, p: Seq<u8>, now: u64) -> Telemetry {
    let rs = reports(p);
    if sensor_reports(rs) > 0 {
        Telemetry {
            orientation: newest_orientation(rs, t.orientation),
            acceleration: newest_acceleration(rs, t.acceleration),
            imu_updated: Some(now),
            ..t
        }
    } else {
        t
    }
}

/// Whether a read brings sensor reports.
pub open spec fn brings_reports(ev: ReadOutcome) -> bool {
    ev matches ReadOutcome::Packet(channel, p) && channel == CH_INPUT && sensor_reports(
        reports(p@),
    ) > 0
}

/// What a read means in the steady state. The sensor says that it reset itself
/// on the executable channel.
pub open spec fn steady_step_of(ev: ReadOutcome) -> SteadyStep {
    match ev {
        ReadOutcome::Packet(channel, p) => if channel == CH_CONTROL {
            SteadyStep::ReadAgain(control_of(p@))
        } else if channel == CH_EXECUTABLE && p@.len() > 0 && p@[0] == 1 {
            SteadyStep::Restart
        } else {
            SteadyStep::ReadAgain(ControlReport::Nothing)
        },
        ReadOutcome::Nothing => SteadyStep::Sleep(IDLE_POLL_MS),
        ReadOutcome::Nack | ReadOutcome::Failed => SteadyStep::Restart,
    }
}

/// The store after a read that was taken in at `now`.
pub open spec fn store_after(t: Telemetry, ev: ReadOutcome, now: u64) -> Telemetry {
    if brings_reports(ev) {
        with_input(t, ev->Packet_1@, now)
    } else {
        t
    }
}

/// When the last report was taken in, after a read at `now`.
pub open spec fn report_time(last_report: u64, ev: ReadOutcome, now: u64) -> u64 {
    if brings_reports(ev) {
        now
    } else {
        last_report
    }
}

/// Takes a read in the steady state: stores its reports, and says how to go on.
pub fn steady_step(
    ev: ReadOutcome,
    t: &mut Telemetry,
    last_report: &mut u64,
    now: u64,
) -> (step: SteadyStep)
    requires
        ev matches ReadOutcome::Packet(_, p) ==> p@.len() <= MAX_PACKET,
    ensures
        step == steady_step_of(ev),
        *final(t) == store_after(*old(t), ev, now),
        *final(last_report) == report_time(*old(last_report), ev, now),
{
    match ev {
        ReadOutcome::Packet(channel, p) => if channel == CH_INPUT {
            let mut orientation: Option<Orientation> = t.orientation;
            let mut acceleration: Option<Acceleration> = t.acceleration;
            if decode_input(p, &mut orientation, &mut acceleration) > 0 {
                *last_report = now;
                t.orientation = orientation;
                t.acceleration = acceleration;
                t.imu_updated = Some(now);
            }
            SteadyStep::ReadAgain(ControlReport::Nothing)
        } else if channel == CH_CONTROL {
            SteadyStep::ReadAgain(decode_control(p))
        } else if channel == CH_EXECUTABLE && p.len() > 0 && p[0] == 1 {
            SteadyStep::Restart
        } else {
            SteadyStep::ReadAgain(ControlReport::Nothing)
        },
        ReadOutcome::Nothing => SteadyStep::Sleep(IDLE_POLL_MS),
        ReadOutcome::Nack => SteadyStep::Restart,
        ReadOutcome::Failed => SteadyStep::Restart,
    }
}

/// Whether the sensor has been silent for too long.
pub fn is_silent(now: u64, last_report: u64) -> (b: bool)
    requires
        last_report <= now,
    ensures
        b == (now - last_report > SILENCE_RESTART_SECS * TICK_HZ),
{
    since(now, last_report) > secs(SILENCE_RESTART_SECS)
}

/// What a step in the steady state comes to, once its pause is over: a sensor
/// that has been silent for too long is brought up anew, whatever was read.
pub open spec fn after_read_of(step: SteadyStep, last_report: u64, now: u64) -> SteadyStep {
    if now - last_report > SILENCE_RESTART_SECS * TICK_HZ {
        SteadyStep::Restart
    } else {
        step
    }
}

/// Takes a step in the steady state, and the instant at which its pause is
/// over; says how to go on.
pub fn after_read(step: SteadyStep, last_report: u64, now: u64) -> (next: SteadyStep)
    requires
        last_report <= now,
    ensures
        next == after_read_of(step, last_report, now),
        next == SteadyStep::Restart <==> step == SteadyStep::Restart || now - last_report
            > SILENCE_RESTART_SECS * TICK_HZ,
        next != SteadyStep::Restart ==> next == step,
{
    if is_silent(now, last_report) {
        SteadyStep::Restart
    } else {
        step
    }
}

/// One read in the steady state: when it was taken in, what it came to, and
/// when its pause was over.
pub struct Poll<'a> {
    pub read: u64,
    pub outcome: ReadOutcome<'a>,
    pub paused: u64,
}

/// When the last report was taken in, for a polling that started at `start`.
pub open spec fn last_report_after(start: u64, polls: Seq<Poll>) -> u64
    decreases polls.len(),
{
    if polls.len() == 0 {
        start
    } else if brings_reports(polls.last().outcome) {
        polls.last().read
    } else {
        last_report_after(start, polls.drop_last())
    }
}

/// Whether polling still goes on after some reads.
pub open spec fn polling(start: u64, polls: Seq<Poll>) -> bool
    decreases polls.len(),
{
    polls.len() > 0 ==> polling(start, polls.drop_last()) && after_read_of(
        steady_step_of(polls.last().outcome),
        last_report_after(start, polls),
        polls.last().paused,
    ) != SteadyStep::Restart
}

/// Whether read `i` lets the polling go on: the bus worked, the sensor did not
/// reset itself, and its last report was not too old.
pub open spec fn alive_at(start: u64, polls: Seq<Poll>, i: int) -> bool {
    &&& !(polls[i].outcome is Nack || polls[i].outcome is Failed)
    &&& !(polls[i].outcome matches ReadOutcome::Packet(channel, p) && channel == 1
        && p@.len() > 0 && p@[0] == 1)
    &&& polls[i].paused - last_report_after(start, polls.take(i + 1)) <= 3 * 32_768
}

/// The sensor is polled as long as every read finds it alive, and no longer: a
/// bus error, a reset of its own or too long a silence has it brought up anew.
pub proof fn law_polling_lasts_while_alive(start: u64, polls: Seq<Poll>)
    ensures
        polling(start, polls) <==> forall|i: int|
            0 <= i < polls.len() ==> #[trigger] alive_at(start, polls, i),
    decreases polls.len(),
{
    if polls.len() > 0 {
        let before = polls.drop_last();
        let n = polls.len() - 1;
        law_polling_lasts_while_alive(start, before);
        assert(polls.take(n + 1) =~= polls);
        assert forall|i: int| 0 <= i < n implies alive_at(start, polls, i) == #[trigger] alive_at(
            start,
            before,
            i,
        ) by {
            assert(before.take(i + 1) =~= polls.take(i + 1));
        }
        if polling(start, polls) {
            assert forall|i: int| 0 <= i < polls.len() implies #[trigger] alive_at(
                start,
                polls,
                i,
            ) by {
                if i < n {
                    assert(alive_at(start, before, i));
                }
            }
        }
        if forall|i: int| 0 <= i < polls.len() ==> #[trigger] alive_at(start, polls, i) {
            assert forall|i: int| 0 <= i < before.len() implies #[trigger] alive_at(
                start,
                before,
                i,
            ) by {
                assert(alive_at(start, polls, i));
            }
            assert(alive_at(start, polls, n));
        }
    }
}

/// What the IMU task is at.
#[derive(Clone, Copy, Debug, PartialEq, Eq, Structural)]
pub enum ImuPhase {
    /// Holding RST low.
    PullReset,
    /// Letting the sensor start after RST went high.
    ReleaseReset,
    BringUp,
    /// Pausing after a bring-up that failed.
    Backoff,
    /// Polling for reports.
    Steady,
}

/// What the IMU task wants done.
#[derive(Clone, Copy, Debug, PartialEq, Eq, Structural)]
pub enum ImuAction {
    /// Drive RST low (or high), and keep it there for so many milliseconds.
    DriveReset { low: bool, hold_ms: u64 },
    /// Run the bring-up.
    BringUp,
    /// Sleep for so many milliseconds.
    Sleep(u64),
    /// Poll until it is time to restart.
    Poll,
}

impl ImuPhase {
    /// What a phase does. RST is pulsed at every bring-up: the sensor's hub can
    /// hang if the host vanishes mid-transfer, and in that state only RST
    /// recovers it.
    pub open spec fn wants(self) -> ImuAction {
        match self {
            ImuPhase::PullReset => ImuAction::DriveReset { low: true, hold_ms: 10 },
            ImuPhase::ReleaseReset => ImuAction::DriveReset { low: false, hold_ms: 100 },
            ImuPhase::BringUp => ImuAction::BringUp,
            ImuPhase::Backoff => ImuAction::Sleep(2000),
            ImuPhase::Steady => ImuAction::Poll,
        }
    }

    /// The phase that follows one that went well, or did not. Polling ends in
    /// a restart either way.
    pub open spec fn next(self, well: bool) -> ImuPhase {
        match self {
            ImuPhase::PullReset => ImuPhase::ReleaseReset,
            ImuPhase::ReleaseReset => ImuPhase::BringUp,
            ImuPhase::BringUp => if well {
                ImuPhase::Steady
            } else {
                ImuPhase::Backoff
            },
            ImuPhase::Backoff | ImuPhase::Steady => ImuPhase::PullReset,
        }
    }

    pub fn action(&self) -> (a: ImuAction)
        ensures
            a == self.wants(),
    {
        match *self {
            ImuPhase::PullReset => ImuAction::DriveReset { low: true, hold_ms: 10 },
            ImuPhase::ReleaseReset => ImuAction::DriveReset { low: false, hold_ms: 100 },
            ImuPhase::BringUp => ImuAction::BringUp,
            ImuPhase::Backoff => ImuAction::Sleep(2000),
            ImuPhase::Steady => ImuAction::Poll,
        }
    }

    pub fn advance(self, well: bool) -> (p: ImuPhase)
        ensures
            p == self.next(well),
    {
        match self {
            ImuPhase::PullReset => ImuPhase::ReleaseReset,
            ImuPhase::ReleaseReset => ImuPhase::BringUp,
            ImuPhase::BringUp => if well {
                ImuPhase::Steady
            } else {
                ImuPhase::Backoff
            },
            ImuPhase::Backoff => ImuPhase::PullReset,
            ImuPhase::Steady => ImuPhase::PullReset,
        }
    }
}

/// Every bring-up comes right behind a pulse of RST, and the sensor is polled
/// only after a bring-up that went well.
pub proof fn law_reset_is_pulsed_before_bring_up(p: ImuPhase, well: bool)
    ensures
        p.next(well) == ImuPhase::BringUp ==> p == ImuPhase::ReleaseReset,
        p.next(well) == ImuPhase::ReleaseReset ==> p == ImuPhase::PullReset,
        p.next(well) == ImuPhase::Steady ==> p == ImuPhase::BringUp && well,
{
}

/// Whatever ends a polling, or a pause behind a failed bring-up, the sensor is
/// reset by 10 ms of low RST, given 100 ms and brought up; where that fails, it
/// is left alone for two seconds, and polled otherwise.
pub proof fn law_sensor_is_reset_and_brought_up(p: ImuPhase, a: bool, b: bool, c: bool)
    requires
        p == ImuPhase::Steady || p == ImuPhase::Backoff,
    ensures
        p.next(a).wants() == (ImuAction::DriveReset { low: true, hold_ms: 10 }),
        p.next(a).next(b).wants() == (ImuAction::DriveReset { low: false, hold_ms: 100 }),
        p.next(a).next(b).next(c).wants() == ImuAction::BringUp,
        p.next(a).next(b).next(c).next(true).wants() == ImuAction::Poll,
        p.next(a).next(b).next(c).next(false).wants() == ImuAction::Sleep(2000),
{
}

/// Whether a packet holds a whole report with this ID.
pub open spec fn holds_report(p: Seq<u8>, id: u8) -> bool {
    exists|i: int| 0 <= i < reports(p).len() && (#[trigger] reports(p)[i])[0] == id
}

proof fn lemma_newest(
    rs: Seq<Seq<u8>>,
    orientation: Option<Orientation>,
    acceleration: Option<Acceleration>,
)
    ensures
        (forall|i: int| 0 <= i < rs.len() ==> (#[trigger] rs[i])[0] != 0x05) ==> newest_orientation(
            rs,
            orientation,
        ) == orientation,
        (exists|i: int| 0 <= i < rs.len() && (#[trigger] rs[i])[0] == 0x05) ==> newest_orientation(
            rs,
            orientation,
        ) is Some && newest_orientation(rs, orientation) == newest_orientation(rs, None),
        (forall|i: int| 0 <= i < rs.len() ==> (#[trigger] rs[i])[0] != 0x01)
            ==> newest_acceleration(rs, acceleration) == acceleration,
        (exists|i: int| 0 <= i < rs.len() && (#[trigger] rs[i])[0] == 0x01) ==> newest_acceleration(
            rs,
            acceleration,
        ) is Some && newest_acceleration(rs, acceleration) == newest_acceleration(rs, None),
        sensor_reports(rs) > 0 <==> exists|i: int|
            0 <= i < rs.len() && ((#[trigger] rs[i])[0] == 0x01 || rs[i][0] == 0x05),
    decreases rs.len(),
{
    if rs.len() > 0 {
        let before = rs.drop_last();
        let n = rs.len() - 1;
        lemma_newest(before, orientation, acceleration);
        assert(rs[n] == rs.last());
        assert(forall|i: int| 0 <= i < n ==> #[trigger] rs[i] == before[i]);
        assert(forall|i: int| 0 <= i < n ==> #[trigger] before[i] == rs[i]);
    }
}

/// A packet changes in the store what it reports and nothing else. Without a
/// rotation vector the orientation stays, without an accelerometer report the
/// acceleration stays, and without either all does; a reading that is there
/// stays there; what is new is stamped now; and the receiver's readings are not
/// touched.
pub proof fn law_packet_updates_what_it_reports(t: Telemetry, ev: ReadOutcome, now: u64)
    ensures
        ({
            let after = store_after(t, ev, now);
            let input = ev matches ReadOutcome::Packet(channel, p) && channel == 3;
            let p = ev->Packet_1@;
            &&& input && holds_report(p, 0x05) ==> after.orientation is Some
            &&& !(input && holds_report(p, 0x05)) ==> after.orientation == t.orientation
            &&& input && holds_report(p, 0x01) ==> after.acceleration is Some
            &&& !(input && holds_report(p, 0x01)) ==> after.acceleration == t.acceleration
            &&& t.orientation is Some ==> after.orientation is Some
            &&& t.acceleration is Some ==> after.acceleration is Some
            &&& after.imu_updated == (if input && (holds_report(p, 0x05) || holds_report(p, 0x01)) {
                Some(now)
            } else {
                t.imu_updated
            })
            &&& after.gga == t.gga && after.rmc == t.rmc && after.gnss_updated == t.gnss_updated
        }),
{
    if let ReadOutcome::Packet(channel, p) = ev {
        let rs = reports(p@);
        lemma_newest(rs, t.orientation, t.acceleration);
        if sensor_reports(rs) > 0 {
            let i = choose|i: int|
                0 <= i < rs.len() && ((#[trigger] rs[i])[0] == 0x01 || rs[i][0] == 0x05);
            assert(rs[i][0] == 0x01 || rs[i][0] == 0x05);
            if rs[i][0] == 0x05 {
                assert(holds_report(p@, 0x05));
            } else {
                assert(holds_report(p@, 0x01));
            }
        }
    }
}

/// What the sensor measured reaches the store as it measured it, whatever
/// reports came before in the packet, and is no older than the packet.
pub proof fn law_measurement_reaches_the_store(
    t: Telemetry,
    rs: Seq<Seq<u8>>,
    o: Orientation,
    a: Acceleration,
    seq: u8,
    flags: u8,
    delay: u8,
    turned: &[u8],
    moved: &[u8],
    last_report: u64,
    now: u64,
)
    requires
        forall|i: int| 0 <= i < rs.len() ==> is_report(#[trigger] rs[i]),
        o.status < 4,
        a.status < 4,
        flags < 64,
        turned@ == joined(rs) + rotation_report(o, seq, flags, delay),
        moved@ == joined(rs) + acceleration_report(a, seq, flags, delay),
    ensures
        store_after(t, ReadOutcome::Packet(3, turned), now).orientation == Some(o),
        store_after(t, ReadOutcome::Packet(3, turned), now).imu_updated == Some(now),
        report_time(last_report, ReadOutcome::Packet(3, turned), now) == now,
        store_after(t, ReadOutcome::Packet(3, moved), now).acceleration == Some(a),
        store_after(t, ReadOutcome::Packet(3, moved), now).imu_updated == Some(now),
        report_time(last_report, ReadOutcome::Packet(3, moved), now) == now,
{
    law_orientation_reads_back(rs, o, seq, flags, delay, t.orientation, t.acceleration);
    law_acceleration_reads_back(rs, a, seq, flags, delay, t.acceleration, t.orientation);
}

/// The time of the last report moves with every packet that brings one, and
/// with nothing else.
pub proof fn law_only_reports_break_the_silence(last_report: u64, ev: ReadOutcome, now: u64)
    ensures
        report_time(last_report, ev, now) == (if ev matches ReadOutcome::Packet(channel, p)
            && channel == 3 && (holds_report(p@, 0x05) || holds_report(p@, 0x01)) {
            now
        } else {
            last_report
        }),
{
    if let ReadOutcome::Packet(channel, p) = ev {
        let rs = reports(p@);
        lemma_newest(rs, None, None);
        if sensor_reports(rs) > 0 {
            let i = choose|i: int|
                0 <= i < rs.len() && ((#[trigger] rs[i])[0] == 0x01 || rs[i][0] == 0x05);
            if rs[i][0] == 0x05 {
                assert(holds_report(p@, 0x05));
            } else {
                assert(holds_report(p@, 0x01));
            }
        }
    }
}

/// Control packets are told as they are read, in the steady state and while
/// waiting; nothing pending means a short sleep.
pub proof fn law_control_packets_are_told(p: &[u8], what: Awaited)
    ensures
        steady_step_of(ReadOutcome::Packet(2, p)) == SteadyStep::ReadAgain(control_of(p@)),
        steady_step_of(ReadOutcome::Nothing) == SteadyStep::Sleep(10),
        !is_awaited(what, 2, p@) ==> wait_step_of(what, ReadOutcome::Packet(2, p))
            == WaitStep::ReadAgain(control_of(p@)),
        wait_step_of(what, ReadOutcome::Nothing) == WaitStep::Sleep(10),
        wait_step_of(what, ReadOutcome::Nack) == WaitStep::Sleep(50),
{
}

/// Packets of other channels are passed over without a word, but for the one
/// waited for and for the sensor's own reset; the next read follows at once.
pub proof fn law_other_channels_are_passed_over(w: Wait, channel: u8, p: &[u8])
    requires
        channel != 2,
    ensures
        !is_awaited(w.what, channel, p@) ==> w.next(
            WaitEvent::Read(ReadOutcome::Packet(channel, p)),
        ) == WaitAction::Pause(0, ControlReport::Nothing),
        steady_step_of(ReadOutcome::Packet(channel, p)) == (if channel == 1 && p@.len() > 0 && p@[0]
            == 1 {
            SteadyStep::Restart
        } else {
            SteadyStep::ReadAgain(ControlReport::Nothing)
        }),
        !is_awaited(w.what, 2, p@) ==> w.next(WaitEvent::Read(ReadOutcome::Packet(2, p)))
            == WaitAction::Pause(0, control_of(p@)),
        w.next(WaitEvent::Read(ReadOutcome::Nothing)) == WaitAction::Pause(
            10,
            ControlReport::Nothing,
        ),
        w.next(WaitEvent::Read(ReadOutcome::Nack)) == WaitAction::Pause(50, ControlReport::Nothing),
        w.next(WaitEvent::Read(ReadOutcome::Failed)) == WaitAction::End(BringUpEvent::BusError),
{
}

/// What is waited for, and nothing else: "reset complete" on the executable
/// channel, the response to the initialise command and the response for the
/// very report on the control channel.
pub proof fn law_awaited_packets(channel: u8, p: Seq<u8>, report: u8, other: u8)
    ensures
        is_awaited(Awaited::ResetComplete, channel, p) <==> channel == 1 && p.len() >= 1 && p[0]
            == 0x01,
        is_awaited(Awaited::Initialised, channel, p) <==> channel == 2 && p.len() >= 3 && p[0]
            == 0xF1 && p[2] == 0x04,
        is_awaited(Awaited::Feature(report), channel, p) <==> channel == 2 && p.len() >= 2 && p[0]
            == 0xFC && p[1] == report,
        report != other ==> !(is_awaited(Awaited::Feature(report), channel, p) && is_awaited(
            Awaited::Feature(other),
            channel,
            p,
        )),
{
}

/// A report that is waited for is the one that was asked for, with the
/// interval that the sensor is to keep.
pub proof fn law_asked_for_is_awaited(which: u8, attempt: u8, command_seq: u8)
    requires
        (BringUp::Enabling { which, attempt }).wf(),
    ensures
        ({
            let asked = (BringUp::Enabling { which, attempt }).command(command_seq);
            let c = asked.unwrap().1;
            &&& asked is Some && asked.unwrap().0 == 2
            &&& c.len() == 17 && c[0] == 0xFD
            &&& c[1] == (if which == 0 {
                0x05u8
            } else {
                0x01u8
            })
            &&& (BringUp::AwaitingFeature { which, attempt }).pause() == BringUpAction::Wait(
                Awaited::Feature(c[1]),
                1,
            )
            &&& c.subrange(5, 9) == seq![0x50u8, 0xC3u8, 0u8, 0u8]
            &&& forall|i: int| (2 <= i < 5 || 9 <= i < 17) ==> #[trigger] c[i] == 0
        }),
{
    let c = feature_command(wanted_report(which), REPORT_INTERVAL_US);
    lemma_le_bytes_len(50_000, 4);
    reveal_with_fuel(le_bytes, 5);
    assert(le_bytes(50_000, 4) =~= seq![0x50u8, 0xC3u8, 0u8, 0u8]);
    assert(c.subrange(5, 9) =~= seq![0x50u8, 0xC3u8, 0u8, 0u8]);
}

/// The way of the bring-up. Only bus errors fail it; a sensor that answers is
/// led from reset through initialisation and identification to its reports, and
/// one that keeps silent is led on all the same, by way of a command to
/// re-initialise where its reset was not seen.
pub proof fn law_bring_up_goes_its_way(s: BringUp, ev: BringUpEvent, command_seq: u8)
    requires
        s.wf(),
        s.accepts(ev),
    ensures
        s.next(ev) == BringUp::Failed ==> ev == BringUpEvent::BusError,
        s is Resetting && ev != BringUpEvent::BusError ==> s.next(ev) == BringUp::Settling,
        s is ResetPause ==> s.next(ev) is Resetting,
        s == BringUp::Settling ==> s.next(ev) == BringUp::AwaitingReset,
        s == BringUp::AwaitingReset && ev == BringUpEvent::Matched ==> s.next(ev)
            == BringUp::AwaitingInit,
        s == BringUp::AwaitingReset && ev == BringUpEvent::TimedOut ==> s.next(ev)
            == BringUp::Reinitialising,
        s == BringUp::Reinitialising && ev == BringUpEvent::Done ==> s.next(ev)
            == BringUp::AwaitingReinit,
        (s == BringUp::AwaitingInit || s == BringUp::AwaitingReinit) && ev != BringUpEvent::BusError
            ==> s.next(ev) == BringUp::Identifying,
        s == BringUp::Identifying && ev == BringUpEvent::Done ==> s.next(ev) == (
        BringUp::Enabling { which: 0, attempt: 1 }),
        s.next(ev) matches BringUp::Enabling { which, attempt } ==> attempt <= 3 && (attempt > 1
            ==> ev == BringUpEvent::TimedOut),
        s.next(ev) matches BringUp::ResetPause { failures } ==> failures <= 10,
        s is Resetting ==> s.command(command_seq) == Some((1u8, seq![1u8])),
        s == BringUp::Identifying ==> s.command(command_seq) == Some((2u8, seq![0xF9u8, 0u8])),
        s == BringUp::Reinitialising ==> (s.command(command_seq) matches Some((channel, c))
            && channel == 2 && c == seq![0xF2u8, command_seq, 4u8, 1u8, 0, 0, 0, 0, 0, 0, 0, 0]),
        s is ResetPause ==> s.pause() == BringUpAction::Sleep(100),
        s == BringUp::Settling ==> s.pause() == BringUpAction::Sleep(300),
        s == BringUp::AwaitingReset ==> s.pause() == BringUpAction::Wait(Awaited::ResetComplete, 2),
        s == BringUp::AwaitingInit ==> s.pause() == BringUpAction::Wait(Awaited::Initialised, 2),
        s == BringUp::AwaitingReinit ==> s.pause() == BringUpAction::Wait(Awaited::Initialised, 3),
{
    assert(reinit_command(command_seq) =~= seq![
        0xF2u8,
        command_seq,
        4u8,
        1u8,
        0,
        0,
        0,
        0,
        0,
        0,
        0,
        0,
    ]);
}

/// What can happen in a state is what its action can come to: a transfer goes
/// through or fails, a sleep ends, a wait ends with its packet, without it or
/// with a bus error; behind the end there is nothing.
pub proof fn law_only_outcomes_can_happen(s: BringUp, n: u8, ev: BringUpEvent)
    ensures
        s.command(n) is Some ==> (s.accepts(ev) <==> ev == BringUpEvent::Done || ev
            == BringUpEvent::BusError),
        s.command(n) is None ==> (s.accepts(ev) <==> match s.pause() {
            BringUpAction::Sleep(_) => ev == BringUpEvent::Done,
            BringUpAction::Wait(_, _) => ev == BringUpEvent::Matched || ev
                == BringUpEvent::TimedOut || ev == BringUpEvent::BusError,
            _ => false,
        }),
        s.command(n) is None && s.pause() == BringUpAction::Finish <==> s == BringUp::Ready,
        s.command(n) is None && s.pause() == BringUpAction::GiveUp <==> s == BringUp::Failed,
{
}

/// Commands are numbered one behind the other, from 255 on to 0. The command
/// that initialises the sensor carries its number and uses it up; nothing else
/// that is sent has one.
pub proof fn law_commands_are_numbered(s: BringUp, n: u8, m: u8)
    ensures
        BringUp::Reinitialising.command(n) matches Some((channel, payload)) && payload[1] == n,
        BringUp::Reinitialising.command_seq_after(n) == (if n == 255 {
            0
        } else {
            n + 1
        }),
        s != BringUp::Reinitialising ==> s.command_seq_after(n) == n && s.command(n)
            == s.command(m),
{
}

} // verus!
