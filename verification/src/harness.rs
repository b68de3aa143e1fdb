//! Decisions of the test harness that starts, probes and stops the servers under test.
//!
//! The harness waits for each server port to accept connections (or to refuse them, on
//! shutdown) and for each server's PID file to disappear, sleeping 1, 2, 4, ... seconds
//! between probes and giving up once the next sleep would exceed 64 seconds. The waits are
//! state machines: the caller performs each probe or sleep that a step asks for and hands
//! back what it saw.
use vstd::prelude::*;
use crate::error::IoErrorKind;
use crate::text::{decimal, push_decimal};

verus! {

/// A failure of the test harness.
#[derive(Debug)]
pub enum HarnessError {
    /// A failure, with its description
    Other(String),
}

/// The description of a harness failure.
pub open spec fn harness_message(e: HarnessError) -> Seq<char> {
    match e {
        HarnessError::Other(m) => m@,
    }
}

/// The host of the servers under test.
pub const TESTSUITE_SERVER_HOST: &'static str = "127.0.0.1";

/// The number of servers under test.
pub const SERVER_COUNT: usize = 3;

/// The number of ports the servers under test listen on, two per server.
pub const PORT_COUNT: usize = 6;

/// The longest sleep between two probes, in seconds.
pub const MAX_BACKOFF: u64 = 64;

/// The ids of the servers under test, in the order they are started and probed.
pub open spec fn server_ids() -> Seq<Seq<char>> {
    seq!["server1"@, "server2"@, "server3"@]
}

/// The ports of the servers under test, in the order they are probed: two per server.
pub open spec fn server_ports() -> Seq<u16> {
    seq![2003u16, 2004u16, 2005u16, 2006u16, 2007u16, 2008u16]
}

/// The id of server `k`.
pub fn server_id(k: usize) -> (r: &'static str)
    requires
        k < SERVER_COUNT,
    ensures
        r@ == server_ids()[k as int],
{
    if k == 0 {
        "server1"
    } else if k == 1 {
        "server2"
    } else {
        "server3"
    }
}

/// Port `k` of the list of ports.
pub fn server_port(k: usize) -> (r: u16)
    requires
        k < PORT_COUNT,
    ensures
        r == server_ports()[k as int],
{
    2003 + k as u16
}

/// The ports of server `k`.
pub fn ports_of_server(k: usize) -> (r: [u16; 2])
    requires
        k < SERVER_COUNT,
    ensures
        r@ == seq![server_ports()[2 * k as int], server_ports()[2 * k + 1]],
{
    let r = [server_port(2 * k), server_port(2 * k + 1)];
    assert(r@ =~= seq![server_ports()[2 * k as int], server_ports()[2 * k + 1]]);
    r
}

/// The arguments that start server `server_id`: the server binary `binary`, then the
/// option that names its configuration file `ci/<server_id>.toml` under `workspace_root`.
pub fn run_server_args(binary: String, workspace_root: &str, server_id: &str) -> (r: Vec<String>)
    ensures
        r@.len() == 3,
        r@[0]@ == binary@,
        r@[1]@ == "--withconfig"@,
        r@[2]@ == workspace_root@ + "ci/"@ + server_id@ + ".toml"@,
{
    let mut cfg = String::from_str(workspace_root);
    cfg.append("ci/");
    cfg.append(server_id);
    cfg.append(".toml");
    let mut r: Vec<String> = Vec::new();
    r.push(binary);
    r.push(String::from_str("--withconfig"));
    r.push(cfg);
    r
}

/// Why connecting to a server failed, as the harness reads it.
pub struct ConnectError {
    /// The kind of the I/O error, where the failure was one
    pub io_kind: Option<IoErrorKind>,
    /// The description of the failure
    pub message: String,
}

/// Whether an I/O error kind means that no server is listening.
pub open spec fn is_refusal(k: Option<IoErrorKind>) -> bool {
    k == Some(IoErrorKind::ConnectionRefused) || k == Some(IoErrorKind::ConnectionReset)
}

/// Whether a connection attempt was refused (`Some(true)`), succeeded (`Some(false)`), or
/// failed in another way (`None`).
pub open spec fn probe_refused<T>(o: Result<T, ConnectError>) -> Option<bool> {
    match o {
        Ok(_) => Some(false),
        Err(e) => if is_refusal(e.io_kind) {
            Some(true)
        } else {
            None
        },
    }
}

/// A probe that the server refused or reset counts as refused, one that connected as not
/// refused, and one that failed with any other kind of I/O error, or with none, as a
/// failure of the probe itself, whatever the failure's description.
pub proof fn lemma_refusal_kinds(kind: Option<IoErrorKind>, message: String)
    ensures
        probe_refused(Ok::<(), ConnectError>(())) == Some(false),
        probe_refused(Err::<(), ConnectError>(ConnectError { io_kind: kind, message })) == (if kind == Some(
            IoErrorKind::ConnectionRefused,
        ) || kind == Some(IoErrorKind::ConnectionReset) {
            Some(true)
        } else {
            None
        }),
{
}

/// The description of an unexpected connection failure described by `m`.
pub open spec fn unexpected_failure_message(m: Seq<char>) -> Seq<char> {
    "Expected ConnectionRefused while checking for startup. Got error "@ + m + " instead"@
}

/// Whether a connection attempt was refused: `false` when it succeeded, `true` when the
/// server refused or reset it, an error when it failed in any other way.
pub fn connection_refused<T>(input: Result<T, ConnectError>) -> (r: Result<bool, HarnessError>)
    ensures
        match probe_refused(input) {
            Some(b) => r == Ok::<bool, HarnessError>(b),
            None => r matches Err(e) && harness_message(e) == unexpected_failure_message(
                input->Err_0.message@,
            ),
        },
{
    match input {
        Ok(_) => Ok(false),
        Err(e) => {
            let refused = match e.io_kind {
                Some(IoErrorKind::ConnectionRefused) => true,
                Some(IoErrorKind::ConnectionReset) => true,
                _ => false,
            };
            if refused {
                Ok(true)
            } else {
                let mut m = String::from_str("Expected ConnectionRefused while checking for startup. Got error ");
                m.append(e.message.as_str());
                m.append(" instead");
                Err(HarnessError::Other(m))
            }
        },
    }
}

/// `host:port` of a server port.
pub open spec fn connection_string(port: u16) -> Seq<char> {
    TESTSUITE_SERVER_HOST@ + ":"@ + decimal(port as nat)
}

/// `host:port` of a server port.
pub fn connection_string_of(port: u16) -> (r: String)
    ensures
        r@ == connection_string(port),
{
    let mut s = String::from_str(TESTSUITE_SERVER_HOST);
    s.append(":");
    push_decimal(&mut s, port as u64);
    s
}

/// What a wait over the server ports waits for.
#[derive(Debug, Clone, Copy, PartialEq, Eq, Structural)]
pub enum WaitGoal {
    /// Every port accepts connections
    Startup,
    /// Every port refuses connections
    Shutdown,
}

/// What the caller of a wait over the server ports does next.
#[derive(Debug, Clone, Copy, PartialEq, Eq, Structural)]
pub enum WaitStep {
    /// Try to connect to the port
    Probe(u16),
    /// Sleep this many seconds, then try to connect to the port
    SleepThenProbe(u64, u16),
    /// Every port is in the state awaited
    Finished,
}

/// The description of a wait that gave up on `port`.
pub open spec fn give_up_message(goal: WaitGoal, port: u16) -> Seq<char> {
    match goal {
        WaitGoal::Startup => "Startup backoff elapsed. Server at "@ + connection_string(port) + " did not respond."@,
        WaitGoal::Shutdown => "Shutdown backoff elapsed. Server at "@ + connection_string(port)
            + " did not shut down."@,
    }
}

/// The state of a wait over the server ports: the port probed and the next sleep.
pub struct PortWaitV {
    pub goal: WaitGoal,
    pub index: nat,
    pub backoff: nat,
}

/// The state after a wait in state `s` learns whether its port refused a connection, and
/// what the caller does next (or the description of the failure).
pub open spec fn port_wait_next(s: PortWaitV, refused: bool) -> (PortWaitV, Result<WaitStep, Seq<char>>) {
    let waiting = refused == (s.goal == WaitGoal::Startup);
    if !waiting {
        let s2 = PortWaitV { goal: s.goal, index: s.index + 1, backoff: 1 };
        if s.index + 1 >= PORT_COUNT {
            (s2, Ok(WaitStep::Finished))
        } else {
            (s2, Ok(WaitStep::Probe(server_ports()[s.index + 1int])))
        }
    } else if s.backoff > MAX_BACKOFF {
        (s, Err(give_up_message(s.goal, server_ports()[s.index as int])))
    } else {
        (
            PortWaitV { goal: s.goal, index: s.index, backoff: s.backoff * 2 },
            Ok(WaitStep::SleepThenProbe(s.backoff as u64, server_ports()[s.index as int])),
        )
    }
}

/// A wait until every server port accepts connections (startup) or refuses them
/// (shutdown).
pub struct PortWait {
    goal: WaitGoal,
    idx: usize,
    backoff: u64,
}

impl View for PortWait {
    type V = PortWaitV;

    closed spec fn view(&self) -> PortWaitV {
        PortWaitV { goal: self.goal, index: self.idx as nat, backoff: self.backoff as nat }
    }
}

impl PortWait {
    /// The port probed is one of the ports, and the next sleep is at most twice the longest.
    pub open spec fn wf(&self) -> bool {
        &&& self@.index < PORT_COUNT
        &&& 1 <= self@.backoff <= 2 * MAX_BACKOFF
    }

    /// A wait for `goal` at the first port, and the first step: probe it.
    pub fn new(goal: WaitGoal) -> (r: (PortWait, WaitStep))
        ensures
            r.0.wf(),
            r.0@ == (PortWaitV { goal, index: 0, backoff: 1 }),
            r.1 == WaitStep::Probe(server_ports()[0]),
    {
        (PortWait { goal, idx: 0, backoff: 1 }, WaitStep::Probe(server_port(0)))
    }

    /// Takes the outcome of the probe of the current port: the next step, or an error where
    /// the wait gave up or the connection failed unexpectedly. After `Finished` or an error
    /// the wait is over.
    pub fn on_probe<T>(&mut self, outcome: Result<T, ConnectError>) -> (r: Result<WaitStep, HarnessError>)
        requires
            old(self).wf(),
        ensures
            match probe_refused(outcome) {
                None => final(self)@ == old(self)@ && (r matches Err(e) && harness_message(e)
                    == unexpected_failure_message(outcome->Err_0.message@)),
                Some(refused) => {
                    let (s2, step) = port_wait_next(old(self)@, refused);
                    &&& final(self)@ == s2
                    &&& (step is Ok ==> r == Ok::<WaitStep, HarnessError>(step->Ok_0))
                    &&& (step is Err ==> (r matches Err(e) && harness_message(e) == step->Err_0))
                    &&& (final(self).wf() || r == Ok::<WaitStep, HarnessError>(WaitStep::Finished))
                },
            },
    {
        let refused = match connection_refused(outcome) {
            Ok(b) => b,
            Err(e) => {
                return Err(e);
            },
        };
        let waiting = refused == (self.goal == WaitGoal::Startup);
        if !waiting {
            self.idx = self.idx + 1;
            self.backoff = 1;
            if self.idx >= PORT_COUNT {
                Ok(WaitStep::Finished)
            } else {
                Ok(WaitStep::Probe(server_port(self.idx)))
            }
        } else if self.backoff > MAX_BACKOFF {
            let port = server_port(self.idx);
            let mut m = match self.goal {
                WaitGoal::Startup => String::from_str("Startup backoff elapsed. Server at "),
                WaitGoal::Shutdown => String::from_str("Shutdown backoff elapsed. Server at "),
            };
            let cs = connection_string_of(port);
            m.append(cs.as_str());
            match self.goal {
                WaitGoal::Startup => m.append(" did not respond."),
                WaitGoal::Shutdown => m.append(" did not shut down."),
            }
            Err(HarnessError::Other(m))
        } else {
            let secs = self.backoff;
            self.backoff = self.backoff * 2;
            Ok(WaitStep::SleepThenProbe(secs, server_port(self.idx)))
        }
    }
}

/// The steps of `k` probes in a row that all find the port refused (`refused`) or not,
/// from state `s`, stopping at the first that does not ask for another probe.
pub open spec fn port_wait_run(s: PortWaitV, refused: bool, k: nat) -> Seq<Result<WaitStep, Seq<char>>>
    decreases k,
{
    if k == 0 {
        Seq::empty()
    } else {
        let (s2, step) = port_wait_next(s, refused);
        if step matches Ok(WaitStep::SleepThenProbe(_, _)) {
            seq![step] + port_wait_run(s2, refused, (k - 1) as nat)
        } else {
            seq![step]
        }
    }
}

/// A port that stays out of the state awaited is probed eight times: the first seven
/// probes are each followed by a sleep, of 1, 2, 4, 8, 16, 32 and 64 seconds (127 in all),
/// and the eighth gives up.
pub proof fn lemma_port_wait_gives_up(goal: WaitGoal, index: nat)
    requires
        index < PORT_COUNT,
    ensures
        ({
            let steps = port_wait_run(
                PortWaitV { goal, index, backoff: 1 },
                goal == WaitGoal::Startup,
                100,
            );
            let port = server_ports()[index as int];
            &&& steps.len() == 8
            &&& steps[0] == Ok::<WaitStep, Seq<char>>(WaitStep::SleepThenProbe(1, port))
            &&& steps[1] == Ok::<WaitStep, Seq<char>>(WaitStep::SleepThenProbe(2, port))
            &&& steps[2] == Ok::<WaitStep, Seq<char>>(WaitStep::SleepThenProbe(4, port))
            &&& steps[3] == Ok::<WaitStep, Seq<char>>(WaitStep::SleepThenProbe(8, port))
            &&& steps[4] == Ok::<WaitStep, Seq<char>>(WaitStep::SleepThenProbe(16, port))
            &&& steps[5] == Ok::<WaitStep, Seq<char>>(WaitStep::SleepThenProbe(32, port))
            &&& steps[6] == Ok::<WaitStep, Seq<char>>(WaitStep::SleepThenProbe(64, port))
            &&& steps[7] == Err::<WaitStep, Seq<char>>(give_up_message(goal, port))
        }),
{
    let r = goal == WaitGoal::Startup;
    let s0 = PortWaitV { goal, index, backoff: 1 };
    let s1 = PortWaitV { goal, index, backoff: 2 };
    let s2 = PortWaitV { goal, index, backoff: 4 };
    let s3 = PortWaitV { goal, index, backoff: 8 };
    let s4 = PortWaitV { goal, index, backoff: 16 };
    let s5 = PortWaitV { goal, index, backoff: 32 };
    let s6 = PortWaitV { goal, index, backoff: 64 };
    let s7 = PortWaitV { goal, index, backoff: 128 };
    let t7 = port_wait_run(s7, r, 93);
    let t6 = port_wait_run(s6, r, 94);
    let t5 = port_wait_run(s5, r, 95);
    let t4 = port_wait_run(s4, r, 96);
    let t3 = port_wait_run(s3, r, 97);
    let t2 = port_wait_run(s2, r, 98);
    let t1 = port_wait_run(s1, r, 99);
    let t0 = port_wait_run(s0, r, 100);
    assert(t7.len() == 1);
    assert(t6 =~= seq![port_wait_next(s6, r).1] + t7);
    assert(t5 =~= seq![port_wait_next(s5, r).1] + t6);
    assert(t4 =~= seq![port_wait_next(s4, r).1] + t5);
    assert(t3 =~= seq![port_wait_next(s3, r).1] + t4);
    assert(t2 =~= seq![port_wait_next(s2, r).1] + t3);
    assert(t1 =~= seq![port_wait_next(s1, r).1] + t2);
    assert(t0 =~= seq![port_wait_next(s0, r).1] + t1);
}

/// Each port gets a full wait of its own: from any state, once the port being probed is in
/// the state awaited, the next port is probed, and if it stays out of that state it is
/// probed eight times, with sleeps of 1, 2, 4, ..., 64 seconds, before the wait gives up;
/// however long the previous port took.
pub proof fn lemma_port_wait_restarts_per_port(s: PortWaitV)
    requires
        s.index + 1 < PORT_COUNT,
    ensures
        ({
            let (s2, step) = port_wait_next(s, s.goal != WaitGoal::Startup);
            let steps = port_wait_run(s2, s.goal == WaitGoal::Startup, 100);
            let port = server_ports()[s.index + 1int];
            &&& step == Ok::<WaitStep, Seq<char>>(WaitStep::Probe(port))
            &&& steps.len() == 8
            &&& steps[0] == Ok::<WaitStep, Seq<char>>(WaitStep::SleepThenProbe(1, port))
            &&& steps[1] == Ok::<WaitStep, Seq<char>>(WaitStep::SleepThenProbe(2, port))
            &&& steps[2] == Ok::<WaitStep, Seq<char>>(WaitStep::SleepThenProbe(4, port))
            &&& steps[3] == Ok::<WaitStep, Seq<char>>(WaitStep::SleepThenProbe(8, port))
            &&& steps[4] == Ok::<WaitStep, Seq<char>>(WaitStep::SleepThenProbe(16, port))
            &&& steps[5] == Ok::<WaitStep, Seq<char>>(WaitStep::SleepThenProbe(32, port))
            &&& steps[6] == Ok::<WaitStep, Seq<char>>(WaitStep::SleepThenProbe(64, port))
            &&& steps[7] == Err::<WaitStep, Seq<char>>(give_up_message(s.goal, port))
        }),
{
    let k = (s.index + 1) as nat;
    assert(port_wait_next(s, s.goal != WaitGoal::Startup).0 == PortWaitV { goal: s.goal, index: k, backoff: 1 });
    lemma_port_wait_gives_up(s.goal, k);
}

/// What the caller of a wait for the servers' exit does next.
#[derive(Debug)]
pub enum ExitStep {
    /// Check whether the PID file at this path exists
    Check(String),
    /// Sleep this many seconds, then check whether the PID file at this path exists
    SleepThenCheck(u64, String),
    /// Every server has exited
    Finished,
}

/// The mathematical value of an exit step.
pub enum ExitStepV {
    Check(Seq<char>),
    SleepThenCheck(u64, Seq<char>),
    Finished,
}

/// The mathematical value of an exit step.
pub open spec fn exit_step_view(s: ExitStep) -> ExitStepV {
    match s {
        ExitStep::Check(p) => ExitStepV::Check(p@),
        ExitStep::SleepThenCheck(n, p) => ExitStepV::SleepThenCheck(n, p@),
        ExitStep::Finished => ExitStepV::Finished,
    }
}

/// The PID file of server `k` under the root directory `root`.
pub open spec fn pid_path(root: Seq<char>, k: int) -> Seq<char> {
    root + server_ids()[k] + "/.sky_pid"@
}

/// The description of a wait that gave up on server `k` under `root`.
pub open spec fn exit_give_up_message(root: Seq<char>, k: int) -> Seq<char> {
    "Backoff elapsed. "@ + server_ids()[k] + " process did not exit. PID file at "@ + pid_path(root, k)
        + " still present"@
}

/// The state of a wait for the servers' exit: the server checked and the next sleep.
pub struct ExitWaitV {
    pub root: Seq<char>,
    pub index: nat,
    pub backoff: nat,
}

/// The state after a wait in state `s` learns whether the PID file of its server
/// exists, and what the caller does next (or the description of the failure).
pub open spec fn exit_wait_next(s: ExitWaitV, exists: bool) -> (ExitWaitV, Result<ExitStepV, Seq<char>>) {
    if !exists {
        let s2 = ExitWaitV { root: s.root, index: s.index + 1, backoff: 1 };
        if s.index + 1 >= SERVER_COUNT {
            (s2, Ok(ExitStepV::Finished))
        } else {
            (s2, Ok(ExitStepV::Check(pid_path(s.root, s.index + 1int))))
        }
    } else if s.backoff > MAX_BACKOFF {
        (s, Err(exit_give_up_message(s.root, s.index as int)))
    } else {
        (
            ExitWaitV { root: s.root, index: s.index, backoff: s.backoff * 2 },
            Ok(ExitStepV::SleepThenCheck(s.backoff as u64, pid_path(s.root, s.index as int))),
        )
    }
}

/// A wait until the PID file of every server is gone.
pub struct ExitWait {
    root: String,
    idx: usize,
    backoff: u64,
}

impl View for ExitWait {
    type V = ExitWaitV;

    closed spec fn view(&self) -> ExitWaitV {
        ExitWaitV { root: self.root@, index: self.idx as nat, backoff: self.backoff as nat }
    }
}

impl ExitWait {
    /// The server checked is one of the servers, and the next sleep is at most twice the
    /// longest.
    pub open spec fn wf(&self) -> bool {
        &&& self@.index < SERVER_COUNT
        &&& 1 <= self@.backoff <= 2 * MAX_BACKOFF
    }

    fn path_of(&self, k: usize) -> (r: String)
        requires
            k < SERVER_COUNT,
        ensures
            r@ == pid_path(self@.root, k as int),
    {
        let mut p = self.root.clone();
        p.append(server_id(k));
        p.append("/.sky_pid");
        p
    }

    /// A wait for the servers' exit whose PID files lie under `root`, and the first step:
    /// check the first server's.
    pub fn new(root: String) -> (r: (ExitWait, ExitStep))
        ensures
            r.0.wf(),
            r.0@ == (ExitWaitV { root: root@, index: 0, backoff: 1 }),
            exit_step_view(r.1) == ExitStepV::Check(pid_path(root@, 0)),
    {
        let w = ExitWait { root, idx: 0, backoff: 1 };
        let p = w.path_of(0);
        (w, ExitStep::Check(p))
    }

    /// Takes whether the PID file of the current server exists: the next step, or an error
    /// where the wait gave up. After `Finished` or an error the wait is over.
    pub fn on_check(&mut self, exists: bool) -> (r: Result<ExitStep, HarnessError>)
        requires
            old(self).wf(),
        ensures
            ({
                let (s2, step) = exit_wait_next(old(self)@, exists);
                &&& final(self)@ == s2
                &&& (step is Ok ==> (r matches Ok(x) && exit_step_view(x) == step->Ok_0))
                &&& (step is Err ==> (r matches Err(e) && harness_message(e) == step->Err_0))
                &&& (final(self).wf() || r matches Ok(ExitStep::Finished))
            }),
    {
        if !exists {
            self.idx = self.idx + 1;
            self.backoff = 1;
            if self.idx >= SERVER_COUNT {
                Ok(ExitStep::Finished)
            } else {
                Ok(ExitStep::Check(self.path_of(self.idx)))
            }
        } else if self.backoff > MAX_BACKOFF {
            let mut m = String::from_str("Backoff elapsed. ");
            m.append(server_id(self.idx));
            m.append(" process did not exit. PID file at ");
            let p = self.path_of(self.idx);
            m.append(p.as_str());
            m.append(" still present");
            Err(HarnessError::Other(m))
        } else {
            let secs = self.backoff;
            self.backoff = self.backoff * 2;
            Ok(ExitStep::SleepThenCheck(secs, self.path_of(self.idx)))
        }
    }
}

/// The steps of `k` checks in a row that all find the PID file present (`exists`) or not,
/// from state `s`, stopping at the first that does not ask for another check.
pub open spec fn exit_wait_run(s: ExitWaitV, exists: bool, k: nat) -> Seq<Result<ExitStepV, Seq<char>>>
    decreases k,
{
    if k == 0 {
        Seq::empty()
    } else {
        let (s2, step) = exit_wait_next(s, exists);
        if step matches Ok(ExitStepV::SleepThenCheck(_, _)) {
            seq![step] + exit_wait_run(s2, exists, (k - 1) as nat)
        } else {
            seq![step]
        }
    }
}

/// A server whose PID file stays is checked eight times: the first seven checks are each
/// followed by a sleep, of 1, 2, 4, 8, 16, 32 and 64 seconds (127 in all), and the eighth
/// gives up.
pub proof fn lemma_exit_wait_gives_up(root: Seq<char>, index: nat)
    requires
        index < SERVER_COUNT,
    ensures
        ({
            let steps = exit_wait_run(ExitWaitV { root, index, backoff: 1 }, true, 100);
            let p = pid_path(root, index as int);
            &&& steps.len() == 8
            &&& steps[0] == Ok::<ExitStepV, Seq<char>>(ExitStepV::SleepThenCheck(1, p))
            &&& steps[1] == Ok::<ExitStepV, Seq<char>>(ExitStepV::SleepThenCheck(2, p))
            &&& steps[2] == Ok::<ExitStepV, Seq<char>>(ExitStepV::SleepThenCheck(4, p))
            &&& steps[3] == Ok::<ExitStepV, Seq<char>>(ExitStepV::SleepThenCheck(8, p))
            &&& steps[4] == Ok::<ExitStepV, Seq<char>>(ExitStepV::SleepThenCheck(16, p))
            &&& steps[5] == Ok::<ExitStepV, Seq<char>>(ExitStepV::SleepThenCheck(32, p))
            &&& steps[6] == Ok::<ExitStepV, Seq<char>>(ExitStepV::SleepThenCheck(64, p))
            &&& steps[7] == Err::<ExitStepV, Seq<char>>(exit_give_up_message(root, index as int))
        }),
{
    let s0 = ExitWaitV { root, index, backoff: 1 };
    let s1 = ExitWaitV { root, index, backoff: 2 };
    let s2 = ExitWaitV { root, index, backoff: 4 };
    let s3 = ExitWaitV { root, index, backoff: 8 };
    let s4 = ExitWaitV { root, index, backoff: 16 };
    let s5 = ExitWaitV { root, index, backoff: 32 };
    let s6 = ExitWaitV { root, index, backoff: 64 };
    let s7 = ExitWaitV { root, index, backoff: 128 };
    let t7 = exit_wait_run(s7, true, 93);
    let t6 = exit_wait_run(s6, true, 94);
    let t5 = exit_wait_run(s5, true, 95);
    let t4 = exit_wait_run(s4, true, 96);
    let t3 = exit_wait_run(s3, true, 97);
    let t2 = exit_wait_run(s2, true, 98);
    let t1 = exit_wait_run(s1, true, 99);
    let t0 = exit_wait_run(s0, true, 100);
    assert(t7.len() == 1);
    assert(t6 =~= seq![exit_wait_next(s6, true).1] + t7);
    assert(t5 =~= seq![exit_wait_next(s5, true).1] + t6);
    assert(t4 =~= seq![exit_wait_next(s4, true).1] + t5);
    assert(t3 =~= seq![exit_wait_next(s3, true).1] + t4);
    assert(t2 =~= seq![exit_wait_next(s2, true).1] + t3);
    assert(t1 =~= seq![exit_wait_next(s1, true).1] + t2);
    assert(t0 =~= seq![exit_wait_next(s0, true).1] + t1);
}

/// Each server gets a full wait of its own: from any state, once the PID file of the
/// server being checked is gone, the next server's file is checked, and if it stays it is
/// checked eight times, with sleeps of 1, 2, 4, ..., 64 seconds, before the wait gives up;
/// however long the previous server took.
pub proof fn lemma_exit_wait_restarts_per_server(s: ExitWaitV)
    requires
        s.index + 1 < SERVER_COUNT,
    ensures
        ({
            let (s2, step) = exit_wait_next(s, false);
            let steps = exit_wait_run(s2, true, 100);
            let k = s.index + 1int;
            let p = pid_path(s.root, k);
            &&& step == Ok::<ExitStepV, Seq<char>>(ExitStepV::Check(p))
            &&& steps.len() == 8
            &&& steps[0] == Ok::<ExitStepV, Seq<char>>(ExitStepV::SleepThenCheck(1, p))
            &&& steps[1] == Ok::<ExitStepV, Seq<char>>(ExitStepV::SleepThenCheck(2, p))
            &&& steps[2] == Ok::<ExitStepV, Seq<char>>(ExitStepV::SleepThenCheck(4, p))
            &&& steps[3] == Ok::<ExitStepV, Seq<char>>(ExitStepV::SleepThenCheck(8, p))
            &&& steps[4] == Ok::<ExitStepV, Seq<char>>(ExitStepV::SleepThenCheck(16, p))
            &&& steps[5] == Ok::<ExitStepV, Seq<char>>(ExitStepV::SleepThenCheck(32, p))
            &&& steps[6] == Ok::<ExitStepV, Seq<char>>(ExitStepV::SleepThenCheck(64, p))
            &&& steps[7] == Err::<ExitStepV, Seq<char>>(exit_give_up_message(s.root, k))
        }),
{
    let k = (s.index + 1) as nat;
    assert(exit_wait_next(s, false).0 == ExitWaitV { root: s.root, index: k, backoff: 1 });
    lemma_exit_wait_gives_up(s.root, k);
}

/// What the caller of a run of a task against the servers does next.
#[derive(Debug, Clone, Copy, PartialEq, Eq, Structural)]
pub enum SessionAction {
    /// Start the servers and wait until they accept connections
    StartServers,
    /// Run the task
    RunTask,
    /// Stop the servers
    KillServers,
    /// Wait until the servers refuse connections
    WaitForShutdown,
    /// The run is over and succeeded
    Finish,
}

/// Where a run of a task against the servers stands: the action under way.
#[derive(Debug, Clone, Copy, PartialEq, Eq, Structural)]
pub enum SessionStage {
    Starting,
    Running,
    Killing,
    ShuttingDown,
    Done,
}

/// The stage after the action of `stage` succeeded, and the next action: the servers are
/// started, the task is run, and then, where asked to, the servers are stopped and their
/// shutdown awaited.
pub open spec fn session_next(stage: SessionStage, kill_when_done: bool) -> (SessionStage, SessionAction) {
    match stage {
        SessionStage::Starting => (SessionStage::Running, SessionAction::RunTask),
        SessionStage::Running => if kill_when_done {
            (SessionStage::Killing, SessionAction::KillServers)
        } else {
            (SessionStage::Done, SessionAction::Finish)
        },
        SessionStage::Killing => (SessionStage::ShuttingDown, SessionAction::WaitForShutdown),
        _ => (SessionStage::Done, SessionAction::Finish),
    }
}

/// A run of a task against the servers under test.
pub struct ServerSession {
    pub kill_when_done: bool,
    pub stage: SessionStage,
}

impl ServerSession {
    /// A run that stops the servers at the end where `kill_servers_when_done` holds, and the
    /// first action: start the servers.
    pub fn new(kill_servers_when_done: bool) -> (r: (ServerSession, SessionAction))
        ensures
            r.0 == (ServerSession { kill_when_done: kill_servers_when_done, stage: SessionStage::Starting }),
            r.1 == SessionAction::StartServers,
    {
        (ServerSession { kill_when_done: kill_servers_when_done, stage: SessionStage::Starting }, SessionAction::StartServers)
    }

    /// Takes the outcome of the action under way: the next action, or the failure, which
    /// ends the run.
    pub fn on_done(&mut self, outcome: Result<(), HarnessError>) -> (r: Result<SessionAction, HarnessError>)
        requires
            old(self).stage != SessionStage::Done,
        ensures
            final(self).kill_when_done == old(self).kill_when_done,
            match outcome {
                Ok(()) => {
                    let (st, act) = session_next(old(self).stage, old(self).kill_when_done);
                    r == Ok::<SessionAction, HarnessError>(act) && final(self).stage == st
                },
                Err(e) => r == Err::<SessionAction, HarnessError>(e) && final(self).stage == SessionStage::Done,
            },
    {
        match outcome {
            Err(e) => {
                self.stage = SessionStage::Done;
                Err(e)
            },
            Ok(()) => {
                let (st, act) = match self.stage {
                    SessionStage::Starting => (SessionStage::Running, SessionAction::RunTask),
                    SessionStage::Running => if self.kill_when_done {
                        (SessionStage::Killing, SessionAction::KillServers)
                    } else {
                        (SessionStage::Done, SessionAction::Finish)
                    },
                    SessionStage::Killing => (SessionStage::ShuttingDown, SessionAction::WaitForShutdown),
                    _ => (SessionStage::Done, SessionAction::Finish),
                };
                self.stage = st;
                Ok(act)
            },
        }
    }
}

/// A run whose every action succeeds asks for the servers to be started, the task run, and,
/// where asked to, the servers stopped and their shutdown awaited, in that order, and then
/// finishes.
pub proof fn lemma_session_order(kill_when_done: bool)
    ensures
        ({
            let (s1, a1) = session_next(SessionStage::Starting, kill_when_done);
            let (s2, a2) = session_next(s1, kill_when_done);
            a1 == SessionAction::RunTask && if kill_when_done {
                let (s3, a3) = session_next(s2, kill_when_done);
                let (s4, a4) = session_next(s3, kill_when_done);
                a2 == SessionAction::KillServers && a3 == SessionAction::WaitForShutdown
                    && a4 == SessionAction::Finish && s4 == SessionStage::Done
            } else {
                a2 == SessionAction::Finish && s2 == SessionStage::Done
            }
        }),
{
}

/// The description of a failure to run the script that stops the servers on Windows,
/// whose own description is `m`.
pub fn script_failure(m: &str) -> (r: HarnessError)
    ensures
        harness_message(r) == "Failed to run powershell script with error: "@ + m@,
{
    let mut s = String::from_str("Failed to run powershell script with error: ");
    s.append(m);
    HarnessError::Other(s)
}

} // verus!
