use skyd::actions::{heya, mpop_element, mpop_header, Element, PopOutcome};
use skyd::error::IoErrorKind;
use skyd::harness::{
    connection_refused, connection_string_of, ports_of_server, run_server_args, script_failure, server_id,
    ConnectError, ExitStep, ExitWait, HarnessError, PortWait, ServerSession, SessionAction, SessionStage, WaitGoal,
    WaitStep,
};
use skyd::text::push_decimal;

fn refused() -> Result<(), ConnectError> {
    Err(ConnectError { io_kind: Some(IoErrorKind::ConnectionRefused), message: "refused".into() })
}

fn message(e: HarnessError) -> String {
    match e {
        HarnessError::Other(m) => m,
    }
}

#[test]
fn connection_refused_classifies_outcomes() {
    assert!(!connection_refused::<u8>(Ok(1)).unwrap());
    assert!(connection_refused(refused()).unwrap());
    let reset: Result<(), ConnectError> =
        Err(ConnectError { io_kind: Some(IoErrorKind::ConnectionReset), message: "reset".into() });
    assert!(connection_refused(reset).unwrap());
    let other: Result<(), ConnectError> = Err(ConnectError { io_kind: None, message: "bad response".into() });
    assert_eq!(
        message(connection_refused(other).unwrap_err()),
        "Expected ConnectionRefused while checking for startup. Got error bad response instead"
    );
}

#[test]
fn startup_wait_walks_every_port() {
    let (mut w, first) = PortWait::new(WaitGoal::Startup);
    assert_eq!(first, WaitStep::Probe(2003));
    assert_eq!(w.on_probe(refused()).unwrap(), WaitStep::SleepThenProbe(1, 2003));
    assert_eq!(w.on_probe(refused()).unwrap(), WaitStep::SleepThenProbe(2, 2003));
    let mut expected = vec![2004u16, 2005, 2006, 2007, 2008].into_iter();
    loop {
        match w.on_probe::<()>(Ok(())).unwrap() {
            WaitStep::Probe(p) => assert_eq!(Some(p), expected.next()),
            WaitStep::Finished => break,
            other => panic!("unexpected step {other:?}"),
        }
    }
    assert_eq!(expected.next(), None);
}

#[test]
fn startup_wait_gives_up_after_127_seconds() {
    let (mut w, _) = PortWait::new(WaitGoal::Startup);
    let mut slept = 0u64;
    let mut sleeps = vec![];
    let err = loop {
        match w.on_probe(refused()) {
            Ok(WaitStep::SleepThenProbe(s, 2003)) => {
                slept += s;
                sleeps.push(s);
            },
            Ok(other) => panic!("unexpected step {other:?}"),
            Err(e) => break e,
        }
    };
    assert_eq!(sleeps, vec![1, 2, 4, 8, 16, 32, 64]);
    assert_eq!(slept, 127);
    assert_eq!(message(err), "Startup backoff elapsed. Server at 127.0.0.1:2003 did not respond.");
}

#[test]
fn shutdown_wait_waits_for_refusal() {
    let (mut w, _) = PortWait::new(WaitGoal::Shutdown);
    assert_eq!(w.on_probe::<()>(Ok(())).unwrap(), WaitStep::SleepThenProbe(1, 2003));
    assert_eq!(w.on_probe(refused()).unwrap(), WaitStep::Probe(2004));
    for _ in 0..7 {
        assert!(matches!(w.on_probe::<()>(Ok(())).unwrap(), WaitStep::SleepThenProbe(_, 2004)));
    }
    assert_eq!(
        message(w.on_probe::<()>(Ok(())).unwrap_err()),
        "Shutdown backoff elapsed. Server at 127.0.0.1:2004 did not shut down."
    );
}

#[test]
fn exit_wait_checks_each_pid_file() {
    let (mut w, first) = ExitWait::new("/work/".into());
    assert!(matches!(first, ExitStep::Check(ref p) if p == "/work/server1/.sky_pid"));
    assert!(matches!(w.on_check(true).unwrap(), ExitStep::SleepThenCheck(1, ref p) if p == "/work/server1/.sky_pid"));
    assert!(matches!(w.on_check(false).unwrap(), ExitStep::Check(ref p) if p == "/work/server2/.sky_pid"));
    assert!(matches!(w.on_check(false).unwrap(), ExitStep::Check(ref p) if p == "/work/server3/.sky_pid"));
    assert!(matches!(w.on_check(false).unwrap(), ExitStep::Finished));
}

#[test]
fn exit_wait_gives_up() {
    let (mut w, _) = ExitWait::new("/w/".into());
    for _ in 0..7 {
        assert!(matches!(w.on_check(true).unwrap(), ExitStep::SleepThenCheck(_, _)));
    }
    assert_eq!(
        message(w.on_check(true).unwrap_err()),
        "Backoff elapsed. server1 process did not exit. PID file at /w/server1/.sky_pid still present"
    );
}

#[test]
fn server_table_and_commands() {
    assert_eq!(server_id(0), "server1");
    assert_eq!(server_id(2), "server3");
    assert_eq!(ports_of_server(1), [2005, 2006]);
    assert_eq!(connection_string_of(2008), "127.0.0.1:2008");
    let args = run_server_args("target/debug/skyd".into(), "/ws/", "server2");
    assert_eq!(args, vec!["target/debug/skyd".to_string(), "--withconfig".into(), "/ws/ci/server2.toml".into()]);
    assert_eq!(message(script_failure("denied")), "Failed to run powershell script with error: denied");
}

#[test]
fn decimal_text() {
    for n in [0u64, 7, 10, 2003, 65535, u64::MAX] {
        let mut s = String::from("#");
        push_decimal(&mut s, n);
        assert_eq!(s, format!("#{n}"));
    }
}

#[test]
fn heya_answers() {
    assert_eq!(heya(&vec![]), Element::Heya);
    assert_eq!(heya(&vec![b"hi".to_vec()]), Element::Str(b"hi".to_vec()));
    assert_eq!(heya(&vec![b"a".to_vec(), b"b".to_vec()]), Element::ActionErr);
}

#[test]
fn mpop_answers() {
    assert_eq!(mpop_header(0, true), Element::ActionErr);
    assert_eq!(mpop_header(3, false), Element::ServerErr);
    assert_eq!(mpop_header(3, true), Element::ArrayLength(3));
    assert_eq!(mpop_element(Some(PopOutcome::Popped(b"v".to_vec()))), Element::Str(b"v".to_vec()));
    assert_eq!(mpop_element(Some(PopOutcome::Missing)), Element::Nil);
    assert_eq!(mpop_element(Some(PopOutcome::EncodingError)), Element::EncodingErr);
    assert_eq!(mpop_element(None), Element::ServerErr);
}

#[test]
fn session_starts_runs_kills_and_waits_in_order() {
    let (mut s, a) = ServerSession::new(true);
    assert_eq!(a, SessionAction::StartServers);
    assert_eq!(s.on_done(Ok(())).unwrap(), SessionAction::RunTask);
    assert_eq!(s.on_done(Ok(())).unwrap(), SessionAction::KillServers);
    assert_eq!(s.on_done(Ok(())).unwrap(), SessionAction::WaitForShutdown);
    assert_eq!(s.on_done(Ok(())).unwrap(), SessionAction::Finish);
    assert_eq!(s.stage, SessionStage::Done);
}

#[test]
fn session_without_kill_finishes_after_the_task() {
    let (mut s, _) = ServerSession::new(false);
    assert_eq!(s.on_done(Ok(())).unwrap(), SessionAction::RunTask);
    assert_eq!(s.on_done(Ok(())).unwrap(), SessionAction::Finish);
}

#[test]
fn session_stops_at_the_first_failure() {
    let (mut s, _) = ServerSession::new(true);
    assert_eq!(s.on_done(Ok(())).unwrap(), SessionAction::RunTask);
    let e = s.on_done(Err(HarnessError::Other("task failed".into()))).unwrap_err();
    assert_eq!(message(e), "task failed");
    assert_eq!(s.stage, SessionStage::Done);
}
