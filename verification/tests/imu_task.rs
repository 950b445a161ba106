use h753zi_telemetry::clock::TICK_HZ;
use h753zi_telemetry::imu::ControlReport;
use h753zi_telemetry::imu_task::{
    after_read, is_silent, keep_waiting, set_feature, steady_step, wait_deadline, wait_step,
    Awaited, BringUp, BringUpAction, BringUpEvent, ImuAction, ImuPhase, ReadOutcome, SteadyStep,
    Wait, WaitAction, WaitEvent, WaitStep,
};
use h753zi_telemetry::shtp::Shtp;
use h753zi_telemetry::telemetry::Telemetry;

fn written(s: BringUp, shtp: &mut Shtp) -> Vec<u8> {
    match s.action(shtp) {
        BringUpAction::Write(bytes) => bytes,
        _ => panic!("nothing written"),
    }
}

fn waits(s: BringUp, shtp: &mut Shtp) -> (Awaited, u64) {
    match s.action(shtp) {
        BringUpAction::Wait(what, secs) => (what, secs),
        _ => panic!("no wait"),
    }
}

fn sleeps(s: BringUp, shtp: &mut Shtp) -> u64 {
    match s.action(shtp) {
        BringUpAction::Sleep(ms) => ms,
        _ => panic!("no sleep"),
    }
}

#[test]
fn bring_up_of_a_willing_sensor() {
    let mut shtp = Shtp::new();
    let mut s = BringUp::start();
    assert_eq!(written(s, &mut shtp), vec![5, 0, 1, 0, 1]);
    s = s.advance(BringUpEvent::Done);
    assert_eq!(sleeps(s, &mut shtp), 300);
    s = s.advance(BringUpEvent::Done);
    assert_eq!(waits(s, &mut shtp), (Awaited::ResetComplete, 2));
    s = s.advance(BringUpEvent::Matched);
    assert_eq!(waits(s, &mut shtp), (Awaited::Initialised, 2));
    s = s.advance(BringUpEvent::Matched);
    assert_eq!(written(s, &mut shtp), vec![6, 0, 2, 0, 0xF9, 0]);
    s = s.advance(BringUpEvent::Done);
    assert_eq!(
        written(s, &mut shtp),
        vec![21, 0, 2, 1, 0xFD, 5, 0, 0, 0, 0x50, 0xC3, 0, 0, 0, 0, 0, 0, 0, 0, 0, 0]
    );
    s = s.advance(BringUpEvent::Done);
    assert_eq!(waits(s, &mut shtp), (Awaited::Feature(5), 1));
    s = s.advance(BringUpEvent::Matched);
    assert_eq!(
        written(s, &mut shtp),
        vec![21, 0, 2, 2, 0xFD, 1, 0, 0, 0, 0x50, 0xC3, 0, 0, 0, 0, 0, 0, 0, 0, 0, 0]
    );
    s = s.advance(BringUpEvent::Done);
    assert_eq!(waits(s, &mut shtp), (Awaited::Feature(1), 1));
    s = s.advance(BringUpEvent::Matched);
    assert!(matches!(s.action(&mut shtp), BringUpAction::Finish));
}

#[test]
fn reset_command_is_retried_ten_times() {
    let mut shtp = Shtp::new();
    let mut s = BringUp::start();
    for i in 0..10u8 {
        assert_eq!(written(s, &mut shtp), vec![5, 0, 1, i, 1]);
        s = s.advance(BringUpEvent::BusError);
        assert_eq!(sleeps(s, &mut shtp), 100);
        s = s.advance(BringUpEvent::Done);
    }
    assert_eq!(s, BringUp::Resetting { failures: 10 });
    s = s.advance(BringUpEvent::BusError);
    assert_eq!(s, BringUp::Failed);
    assert!(matches!(s.action(&mut shtp), BringUpAction::GiveUp));
}

#[test]
fn hub_is_reinitialised_when_reset_is_not_seen() {
    let mut shtp = Shtp::new();
    let mut s = BringUp::AwaitingReset.advance(BringUpEvent::TimedOut);
    assert_eq!(
        written(s, &mut shtp),
        vec![16, 0, 2, 0, 0xF2, 0, 4, 1, 0, 0, 0, 0, 0, 0, 0, 0]
    );
    assert_eq!(shtp.command_seq, 1);
    s = s.advance(BringUpEvent::Done);
    assert_eq!(waits(s, &mut shtp), (Awaited::Initialised, 3));
    assert_eq!(s.advance(BringUpEvent::TimedOut), BringUp::Identifying);
    assert_eq!(BringUp::AwaitingInit.advance(BringUpEvent::TimedOut), BringUp::Identifying);
}

#[test]
fn unacknowledged_report_is_asked_for_three_times() {
    let mut s = BringUp::Enabling { which: 0, attempt: 1 };
    for attempt in 2..=3u8 {
        s = s.advance(BringUpEvent::Done).advance(BringUpEvent::TimedOut);
        assert_eq!(s, BringUp::Enabling { which: 0, attempt });
    }
    s = s.advance(BringUpEvent::Done).advance(BringUpEvent::TimedOut);
    assert_eq!(s, BringUp::Enabling { which: 1, attempt: 1 });
    for _ in 0..3 {
        s = s.advance(BringUpEvent::Done).advance(BringUpEvent::TimedOut);
    }
    assert_eq!(s, BringUp::Ready);
}

#[test]
fn bus_error_ends_bring_up() {
    for s in [
        BringUp::AwaitingReset,
        BringUp::AwaitingInit,
        BringUp::Reinitialising,
        BringUp::AwaitingReinit,
        BringUp::Identifying,
        BringUp::Enabling { which: 0, attempt: 1 },
        BringUp::AwaitingFeature { which: 1, attempt: 3 },
    ] {
        assert_eq!(s.advance(BringUpEvent::BusError), BringUp::Failed);
    }
}

#[test]
fn longest_bring_up_takes_thirty_eight_steps() {
    let mut shtp = Shtp::new();
    let mut s = BringUp::start();
    let mut steps = 0;
    loop {
        let event = match s.action(&mut shtp) {
            BringUpAction::Write(_) => match s {
                BringUp::Resetting { failures } if failures < 10 => BringUpEvent::BusError,
                _ => BringUpEvent::Done,
            },
            BringUpAction::Sleep(_) => BringUpEvent::Done,
            BringUpAction::Wait(_, _) => BringUpEvent::TimedOut,
            BringUpAction::Finish => break,
            BringUpAction::GiveUp => panic!("gave up"),
        };
        s = s.advance(event);
        steps += 1;
    }
    assert_eq!(steps, 38);
}

#[test]
fn waiting_for_a_packet() {
    let reset = ReadOutcome::Packet(1, &[1]);
    assert_eq!(wait_step(Awaited::ResetComplete, reset), WaitStep::Matched);
    assert_eq!(
        wait_step(Awaited::Initialised, reset),
        WaitStep::ReadAgain(ControlReport::Nothing)
    );
    let init = ReadOutcome::Packet(2, &[0xF1, 0, 4, 0, 0, 0]);
    assert_eq!(wait_step(Awaited::Initialised, init), WaitStep::Matched);
    assert_eq!(
        wait_step(Awaited::ResetComplete, init),
        WaitStep::ReadAgain(ControlReport::Command { command: 4, status: 0 })
    );
    let feature = ReadOutcome::Packet(2, &[0xFC, 5]);
    assert_eq!(wait_step(Awaited::Feature(5), feature), WaitStep::Matched);
    assert_eq!(
        wait_step(Awaited::Feature(1), feature),
        WaitStep::ReadAgain(ControlReport::Other { id: 0xFC, len: 2 })
    );
    assert_eq!(wait_step(Awaited::Feature(1), ReadOutcome::Nothing), WaitStep::Sleep(10));
    assert_eq!(wait_step(Awaited::Feature(1), ReadOutcome::Nack), WaitStep::Sleep(50));
    assert_eq!(wait_step(Awaited::Feature(1), ReadOutcome::Failed), WaitStep::Fail);
}

#[test]
fn deadlines() {
    assert_eq!(wait_deadline(100, 2), 100 + 2 * 32_768);
    assert!(keep_waiting(99, 100));
    assert!(!keep_waiting(100, 100));
}

#[test]
fn feature_command_carries_the_interval() {
    let mut shtp = Shtp::new();
    let bytes = set_feature(&mut shtp, 5, 0x0403_0201);
    assert_eq!(&bytes[9..13], &[1, 2, 3, 4]);
    assert_eq!(bytes.len(), 21);
}

#[test]
fn steady_state_stores_reports() {
    let mut t = Telemetry::default();
    let mut last_report = 5u64;
    let p = [0x01, 0, 3, 0, 1, 0, 2, 0, 3, 0];
    let step = steady_step(ReadOutcome::Packet(3, &p), &mut t, &mut last_report, 77);
    assert_eq!(step, SteadyStep::ReadAgain(ControlReport::Nothing));
    assert_eq!(last_report, 77);
    assert_eq!(t.imu_updated, Some(77));
    assert_eq!(t.acceleration.unwrap().z, 3);
    assert_eq!(t.orientation, None);

    let before = t;
    let empty = ReadOutcome::Packet(3, &[0xFB, 0, 0, 0, 0]);
    steady_step(empty, &mut t, &mut last_report, 99);
    assert_eq!(t, before);
    assert_eq!(last_report, 77);
}

#[test]
fn steady_state_restarts() {
    let mut t = Telemetry::default();
    let mut last = 0u64;
    assert_eq!(
        steady_step(ReadOutcome::Packet(1, &[1]), &mut t, &mut last, 1),
        SteadyStep::Restart
    );
    assert_eq!(
        steady_step(ReadOutcome::Packet(1, &[2]), &mut t, &mut last, 1),
        SteadyStep::ReadAgain(ControlReport::Nothing)
    );
    assert_eq!(steady_step(ReadOutcome::Nack, &mut t, &mut last, 1), SteadyStep::Restart);
    assert_eq!(steady_step(ReadOutcome::Failed, &mut t, &mut last, 1), SteadyStep::Restart);
    assert_eq!(steady_step(ReadOutcome::Nothing, &mut t, &mut last, 1), SteadyStep::Sleep(10));
    assert_eq!(t, Telemetry::default());
}

#[test]
fn silence_is_more_than_three_seconds() {
    assert!(!is_silent(1000 + 3 * TICK_HZ, 1000));
    assert!(is_silent(1001 + 3 * TICK_HZ, 1000));
}

#[test]
fn reset_is_pulsed_before_every_bring_up() {
    let mut p = ImuPhase::PullReset;
    assert_eq!(p.action(), ImuAction::DriveReset { low: true, hold_ms: 10 });
    p = p.advance(true);
    assert_eq!(p.action(), ImuAction::DriveReset { low: false, hold_ms: 100 });
    p = p.advance(true);
    assert_eq!(p.action(), ImuAction::BringUp);
    assert_eq!(p.advance(true).action(), ImuAction::Poll);
    assert_eq!(p.advance(false).action(), ImuAction::Sleep(2000));
    assert_eq!(p.advance(false).advance(true), ImuPhase::PullReset);
    assert_eq!(p.advance(true).advance(false), ImuPhase::PullReset);
}

/// Runs a wait over reads that could begin at the given instants.
fn run_wait(w: Wait, turns: &[(u64, ReadOutcome)]) -> Option<BringUpEvent> {
    for (begun, outcome) in turns {
        match w.step(WaitEvent::Time(*begun)) {
            WaitAction::End(event) => return Some(event),
            action => assert_eq!(action, WaitAction::Read),
        }
        if let WaitAction::End(event) = w.step(WaitEvent::Read(*outcome)) {
            return Some(event);
        }
    }
    None
}

#[test]
fn waits_end_as_they_should() {
    let w = Wait::start(Awaited::Feature(5), 100, 1);
    let end = 100 + TICK_HZ;
    assert_eq!(w.deadline, end);
    let it = ReadOutcome::Packet(2, &[0xFC, 5]);
    let other = ReadOutcome::Packet(3, &[0xFB]);
    let (nack, failed, idle) = (ReadOutcome::Nack, ReadOutcome::Failed, ReadOutcome::Nothing);

    assert_eq!(run_wait(w, &[]), None);
    assert_eq!(run_wait(w, &[(100, nack), (200, other), (300, idle)]), None);
    assert_eq!(
        run_wait(w, &[(100, nack), (200, other), (end - 1, it)]),
        Some(BringUpEvent::Matched)
    );
    assert_eq!(run_wait(w, &[(100, idle), (end, it)]), Some(BringUpEvent::TimedOut));
    assert_eq!(run_wait(w, &[(100, failed), (200, it)]), Some(BringUpEvent::BusError));
    assert_eq!(run_wait(w, &[(100, it), (200, failed)]), Some(BringUpEvent::Matched));
    assert_eq!(run_wait(w, &[(end, failed)]), Some(BringUpEvent::TimedOut));
}

#[test]
fn waits_pause_between_reads() {
    let w = Wait { what: Awaited::ResetComplete, deadline: 1000 };
    let pause = |ev| w.step(WaitEvent::Read(ev));
    assert_eq!(pause(ReadOutcome::Nothing), WaitAction::Pause(10, ControlReport::Nothing));
    assert_eq!(pause(ReadOutcome::Nack), WaitAction::Pause(50, ControlReport::Nothing));
    assert_eq!(
        pause(ReadOutcome::Packet(2, &[0xF1, 0, 4, 0, 0, 7])),
        WaitAction::Pause(0, ControlReport::Command { command: 4, status: 7 })
    );
    assert_eq!(
        pause(ReadOutcome::Packet(3, &[1])),
        WaitAction::Pause(0, ControlReport::Nothing)
    );
}

#[test]
fn silent_sensor_is_restarted_after_any_read() {
    let limit = 3 * TICK_HZ;
    let steps = [
        SteadyStep::ReadAgain(ControlReport::Nothing),
        SteadyStep::Sleep(10),
        SteadyStep::Restart,
    ];
    for step in steps {
        assert_eq!(after_read(step, 50, 50 + limit), step);
        assert_eq!(after_read(step, 50, 51 + limit), SteadyStep::Restart);
    }
}

#[test]
fn polling_lasts_while_the_sensor_is_alive() {
    let report = [0x01, 0, 3, 0, 1, 0, 2, 0, 3, 0];
    let mut t = Telemetry::default();
    let mut last_report = 0u64;
    let mut now = 0u64;
    for _ in 0..5 {
        now += 2 * TICK_HZ;
        let step =
            steady_step(ReadOutcome::Packet(3, &report), &mut t, &mut last_report, now);
        assert_ne!(after_read(step, last_report, now), SteadyStep::Restart);
    }
    let mut idle = 0;
    loop {
        now += TICK_HZ;
        let step = steady_step(ReadOutcome::Nothing, &mut t, &mut last_report, now);
        if after_read(step, last_report, now) == SteadyStep::Restart {
            break;
        }
        idle += 1;
    }
    assert_eq!(idle, 3);
}
