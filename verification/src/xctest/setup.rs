//! The order in which a test run is set up.
//!
//! A run talks to the test service over two connections, one for the session and one
//! to control it. The service ignores whoever has not announced capabilities, and the
//! runner asks for its driver as soon as it is launched, so the order matters.

use vstd::prelude::*;
use crate::dtx::AuxValue;
use crate::text::join3;
use crate::tunnel::Error;
use super::run::{
    are_authorize_args, are_control_args, are_session_args, authorize_args, control_args,
    session_args, RunPlan, DRIVER_CHANNEL, IDE_CHANNEL,
};

verus! {

/// One of the two connections to the test service.
#[derive(Clone, Copy, Debug, PartialEq, Eq, Structural)]
pub enum Peer {
    Session,
    Control,
}

/// What a run is at.
#[derive(Clone, Copy, Debug, PartialEq, Eq, Structural)]
pub enum Stage {
    Begin,
    /// Connecting to the output of the runner.
    Output,
    /// Reading the identifier of that output.
    OutputId,
    Open(Peer),
    /// Announcing capabilities.
    Greet(Peer),
    /// Requesting the channel of the session, or of its control.
    Channel(Peer),
    StartSession,
    /// Requesting the channel of the driver.
    Driver,
    /// Answering the runner from now on.
    Serve,
    Launch,
    StartControl,
    Authorize,
    /// Waiting for the end.
    Wait,
}

impl Stage {
    /// The place of a stage in the run.
    pub open spec fn place(self) -> nat {
        match self {
            Stage::Begin => 0,
            Stage::Output => 1,
            Stage::OutputId => 2,
            Stage::Open(Peer::Session) => 3,
            Stage::Open(Peer::Control) => 4,
            Stage::Greet(Peer::Session) => 5,
            Stage::Greet(Peer::Control) => 6,
            Stage::Channel(Peer::Session) => 7,
            Stage::StartSession => 8,
            Stage::Driver => 9,
            Stage::Serve => 10,
            Stage::Launch => 11,
            Stage::Channel(Peer::Control) => 12,
            Stage::StartControl => 13,
            Stage::Authorize => 14,
            Stage::Wait => 15,
        }
    }

    /// How a failure at a stage is announced. A failure at the others speaks for itself.
    pub open spec fn label(self) -> Option<Seq<char>> {
        match self {
            Stage::Output => Some("openstdiosocket"@),
            Stage::OutputId => Some("stdio relay"@),
            Stage::Open(Peer::Session) => Some("testmanagerd conn1"@),
            Stage::Open(Peer::Control) => Some("testmanagerd conn2"@),
            Stage::Greet(Peer::Session) => Some("conn1 handshake"@),
            Stage::Greet(Peer::Control) => Some("conn2 handshake"@),
            Stage::Channel(Peer::Session) => Some("request channel conn1"@),
            Stage::Channel(Peer::Control) => Some("request channel conn2"@),
            Stage::StartSession => Some("initiateSession"@),
            Stage::Driver => Some("request driver channel"@),
            Stage::Launch => Some("launch test runner"@),
            Stage::StartControl => Some("initiateControlSession"@),
            Stage::Authorize => Some("authorizeTestSession"@),
            Stage::Begin | Stage::Serve | Stage::Wait => None,
        }
    }

    /// The stage after one that went well. The wait has no successor.
    pub open spec fn after(self) -> Stage {
        match self {
            Stage::Begin => Stage::Output,
            Stage::Output => Stage::OutputId,
            Stage::OutputId => Stage::Open(Peer::Session),
            Stage::Open(Peer::Session) => Stage::Open(Peer::Control),
            Stage::Open(Peer::Control) => Stage::Greet(Peer::Session),
            Stage::Greet(Peer::Session) => Stage::Greet(Peer::Control),
            Stage::Greet(Peer::Control) => Stage::Channel(Peer::Session),
            Stage::Channel(Peer::Session) => Stage::StartSession,
            Stage::StartSession => Stage::Driver,
            Stage::Driver => Stage::Serve,
            Stage::Serve => Stage::Launch,
            Stage::Launch => Stage::Channel(Peer::Control),
            Stage::Channel(Peer::Control) => Stage::StartControl,
            Stage::StartControl => Stage::Authorize,
            Stage::Authorize => Stage::Wait,
            Stage::Wait => Stage::Wait,
        }
    }

    fn next(self) -> (stage: Stage)
        ensures
            stage == self.after(),
    {
        match self {
            Stage::Begin => Stage::Output,
            Stage::Output => Stage::OutputId,
            Stage::OutputId => Stage::Open(Peer::Session),
            Stage::Open(Peer::Session) => Stage::Open(Peer::Control),
            Stage::Open(Peer::Control) => Stage::Greet(Peer::Session),
            Stage::Greet(Peer::Session) => Stage::Greet(Peer::Control),
            Stage::Greet(Peer::Control) => Stage::Channel(Peer::Session),
            Stage::Channel(Peer::Session) => Stage::StartSession,
            Stage::StartSession => Stage::Driver,
            Stage::Driver => Stage::Serve,
            Stage::Serve => Stage::Launch,
            Stage::Launch => Stage::Channel(Peer::Control),
            Stage::Channel(Peer::Control) => Stage::StartControl,
            Stage::StartControl => Stage::Authorize,
            Stage::Authorize => Stage::Wait,
            Stage::Wait => Stage::Wait,
        }
    }

    fn announcement(self) -> (label: Option<&'static str>)
        ensures
            match label {
                Some(l) => self.label() == Some(l@),
                None => self.label() is None,
            },
    {
        match self {
            Stage::Output => Some("openstdiosocket"),
            Stage::OutputId => Some("stdio relay"),
            Stage::Open(Peer::Session) => Some("testmanagerd conn1"),
            Stage::Open(Peer::Control) => Some("testmanagerd conn2"),
            Stage::Greet(Peer::Session) => Some("conn1 handshake"),
            Stage::Greet(Peer::Control) => Some("conn2 handshake"),
            Stage::Channel(Peer::Session) => Some("request channel conn1"),
            Stage::Channel(Peer::Control) => Some("request channel conn2"),
            Stage::StartSession => Some("initiateSession"),
            Stage::Driver => Some("request driver channel"),
            Stage::Launch => Some("launch test runner"),
            Stage::StartControl => Some("initiateControlSession"),
            Stage::Authorize => Some("authorizeTestSession"),
            Stage::Begin | Stage::Serve | Stage::Wait => None,
        }
    }
}

/// How what was asked for went.
#[derive(Debug)]
pub enum SetupEvent {
    Done,
    /// A channel was granted under a code.
    Channel(i32),
    /// The runner was launched as a process.
    Launched(i64),
    Failed(String),
}

/// What to do.
#[derive(Debug)]
pub enum SetupAction {
    /// Connect to the output of the runner at a port.
    ConnectOutput(u16),
    ReadOutputId,
    /// Connect to the test service at a port.
    Open(Peer, u16),
    Greet(Peer),
    RequestChannel(Peer, &'static str),
    /// Call a method on a channel, and wait for the reply.
    Call(Peer, i32, &'static str, Vec<AuxValue>),
    /// Answer the calls that come in on a channel of the session.
    Serve(i32),
    Launch,
    Wait,
    Fail(Error),
}

/// How far the set-up of a run has come.
#[derive(Debug)]
pub struct Setup {
    pub stage: Stage,
    pub test_manager_port: u16,
    pub stdio_port: u16,
    pub session_id: [u8; 16],
    /// The channel of the session.
    pub session_channel: i32,
    /// The channel of its control.
    pub control_channel: i32,
    /// The process of the runner.
    pub pid: i64,
}

impl Setup {
    /// The set-up after an event that is no failure.
    pub open spec fn advanced(self, event: SetupEvent) -> Setup {
        Setup {
            stage: self.stage.after(),
            session_channel: match event {
                SetupEvent::Channel(c) if self.stage == Stage::Channel(Peer::Session) => c,
                _ => self.session_channel,
            },
            control_channel: match event {
                SetupEvent::Channel(c) if self.stage == Stage::Channel(Peer::Control) => c,
                _ => self.control_channel,
            },
            pid: match event {
                SetupEvent::Launched(pid) if self.stage == Stage::Launch => pid,
                _ => self.pid,
            },
            ..self
        }
    }

    /// Whether an action is the one of the stage.
    pub open spec fn is_due(self, action: SetupAction) -> bool {
        match self.stage {
            Stage::Begin => false,
            Stage::Output => action == SetupAction::ConnectOutput(self.stdio_port),
            Stage::OutputId => action == SetupAction::ReadOutputId,
            Stage::Open(peer) => action == SetupAction::Open(peer, self.test_manager_port),
            Stage::Greet(peer) => action == SetupAction::Greet(peer),
            Stage::Channel(peer) => action matches SetupAction::RequestChannel(p, name) && p == peer
                && name@ == IDE_CHANNEL@,
            Stage::StartSession => action matches SetupAction::Call(p, channel, selector, args) && p
                == Peer::Session && channel == self.session_channel && selector@
                == "_IDE_initiateSessionWithIdentifier:capabilities:"@ && are_session_args(
                args@,
                self.session_id@,
            ),
            Stage::Driver => action matches SetupAction::RequestChannel(p, name) && p
                == Peer::Session && name@ == DRIVER_CHANNEL@,
            Stage::Serve => action == SetupAction::Serve(self.session_channel),
            Stage::Launch => action == SetupAction::Launch,
            Stage::StartControl => action matches SetupAction::Call(p, channel, selector, args) && p
                == Peer::Control && channel == self.control_channel && selector@
                == "_IDE_initiateControlSessionWithCapabilities:"@ && are_control_args(args@),
            Stage::Authorize => action matches SetupAction::Call(p, channel, selector, args) && p
                == Peer::Control && channel == self.control_channel && selector@
                == "_IDE_authorizeTestSessionWithProcessID:"@ && are_authorize_args(
                args@,
                self.pid,
            ),
            Stage::Wait => action == SetupAction::Wait,
        }
    }

    /// A run that has not begun.
    pub fn new(plan: &RunPlan, session_id: [u8; 16]) -> (setup: Setup)
        ensures
            setup == (Setup {
                stage: Stage::Begin,
                test_manager_port: plan.test_manager_port,
                stdio_port: plan.stdio_port,
                session_id,
                session_channel: 0,
                control_channel: 0,
                pid: 0,
            }),
    {
        Setup {
            stage: Stage::Begin,
            test_manager_port: plan.test_manager_port,
            stdio_port: plan.stdio_port,
            session_id,
            session_channel: 0,
            control_channel: 0,
            pid: 0,
        }
    }

    /// Takes in how the last action went, and says what to do next. The first event
    /// starts the run. A failure ends it, and is announced by what failed.
    pub fn next(&mut self, event: SetupEvent) -> (action: SetupAction)
        ensures
            match event {
                SetupEvent::Failed(why) => {
                    &&& *final(self) == *old(self)
                    &&& action matches SetupAction::Fail(Error::Protocol(t))
                    &&& t@ == match old(self).stage.label() {
                        Some(label) => label + ": "@ + why@,
                        None => why@,
                    }
                },
                _ => {
                    &&& *final(self) == old(self).advanced(event)
                    &&& final(self).is_due(action)
                },
            },
    {
        match event {
            SetupEvent::Failed(why) => {
                let text: String = match self.stage.announcement() {
                    Some(label) => join3(label, ": ", why.as_str()),
                    None => why,
                };
                return SetupAction::Fail(Error::Protocol(text));
            },
            SetupEvent::Channel(c) => {
                if self.stage == Stage::Channel(Peer::Session) {
                    self.session_channel = c;
                } else if self.stage == Stage::Channel(Peer::Control) {
                    self.control_channel = c;
                }
            },
            SetupEvent::Launched(pid) => {
                if self.stage == Stage::Launch {
                    self.pid = pid;
                }
            },
            SetupEvent::Done => {},
        }
        self.stage = self.stage.next();
        self.action()
    }

    fn action(&self) -> (action: SetupAction)
        requires
            self.stage != Stage::Begin,
        ensures
            self.is_due(action),
    {
        match self.stage {
            Stage::Begin | Stage::Wait => SetupAction::Wait,
            Stage::Output => SetupAction::ConnectOutput(self.stdio_port),
            Stage::OutputId => SetupAction::ReadOutputId,
            Stage::Open(peer) => SetupAction::Open(peer, self.test_manager_port),
            Stage::Greet(peer) => SetupAction::Greet(peer),
            Stage::Channel(peer) => SetupAction::RequestChannel(peer, IDE_CHANNEL),
            Stage::StartSession => SetupAction::Call(
                Peer::Session,
                self.session_channel,
                "_IDE_initiateSessionWithIdentifier:capabilities:",
                session_args(&self.session_id),
            ),
            Stage::Driver => SetupAction::RequestChannel(Peer::Session, DRIVER_CHANNEL),
            Stage::Serve => SetupAction::Serve(self.session_channel),
            Stage::Launch => SetupAction::Launch,
            Stage::StartControl => SetupAction::Call(
                Peer::Control,
                self.control_channel,
                "_IDE_initiateControlSessionWithCapabilities:",
                control_args(),
            ),
            Stage::Authorize => SetupAction::Call(
                Peer::Control,
                self.control_channel,
                "_IDE_authorizeTestSessionWithProcessID:",
                authorize_args(self.pid),
            ),
        }
    }
}

/// Every stage but the last leads to the next place, so that no stage is left out and
/// none comes twice.
pub proof fn lemma_in_order(stage: Stage)
    requires
        stage != Stage::Wait,
    ensures
        stage.after().place() == stage.place() + 1,
{
}

/// No two stages have the same place.
pub proof fn lemma_places_differ(a: Stage, b: Stage)
    requires
        a.place() == b.place(),
    ensures
        a == b,
{
}

/// Capabilities are announced before a channel is requested on the same connection.
/// The channel of the driver is requested, and calls are answered, before the runner is
/// launched.
pub proof fn lemma_ready_before(peer: Peer)
    ensures
        Stage::Greet(peer).place() < Stage::Channel(peer).place(),
        Stage::Greet(Peer::Session).place() < Stage::Driver.place(),
        Stage::Driver.place() < Stage::Launch.place(),
        Stage::Serve.place() < Stage::Launch.place(),
        Stage::Launch.place() < Stage::Authorize.place(),
{
}

/// The order of the stages, from the beginning to the wait.
pub proof fn lemma_order()
    ensures
        Stage::Begin.after() == Stage::Output,
        Stage::Output.after() == Stage::OutputId,
        Stage::OutputId.after() == Stage::Open(Peer::Session),
        Stage::Open(Peer::Session).after() == Stage::Open(Peer::Control),
        Stage::Open(Peer::Control).after() == Stage::Greet(Peer::Session),
        Stage::Greet(Peer::Session).after() == Stage::Greet(Peer::Control),
        Stage::Greet(Peer::Control).after() == Stage::Channel(Peer::Session),
        Stage::Channel(Peer::Session).after() == Stage::StartSession,
        Stage::StartSession.after() == Stage::Driver,
        Stage::Driver.after() == Stage::Serve,
        Stage::Serve.after() == Stage::Launch,
        Stage::Launch.after() == Stage::Channel(Peer::Control),
        Stage::Channel(Peer::Control).after() == Stage::StartControl,
        Stage::StartControl.after() == Stage::Authorize,
        Stage::Authorize.after() == Stage::Wait,
        Stage::Wait.after() == Stage::Wait,
{
}

/// What a failure is announced by.
pub proof fn lemma_labels()
    ensures
        Stage::Output.label() == Some("openstdiosocket"@),
        Stage::OutputId.label() == Some("stdio relay"@),
        Stage::Open(Peer::Session).label() == Some("testmanagerd conn1"@),
        Stage::Open(Peer::Control).label() == Some("testmanagerd conn2"@),
        Stage::Greet(Peer::Session).label() == Some("conn1 handshake"@),
        Stage::Greet(Peer::Control).label() == Some("conn2 handshake"@),
        Stage::Channel(Peer::Session).label() == Some("request channel conn1"@),
        Stage::Channel(Peer::Control).label() == Some("request channel conn2"@),
        Stage::StartSession.label() == Some("initiateSession"@),
        Stage::Driver.label() == Some("request driver channel"@),
        Stage::Launch.label() == Some("launch test runner"@),
        Stage::StartControl.label() == Some("initiateControlSession"@),
        Stage::Authorize.label() == Some("authorizeTestSession"@),
        Stage::Begin.label() is None,
        Stage::Serve.label() is None,
        Stage::Wait.label() is None,
{
}

/// What an event changes: the stage moves on; the code of a channel that was asked for on a
/// connection is kept for that connection, and the process of the runner when it is
/// launched; nothing else changes.
pub proof fn lemma_advanced(s: Setup, event: SetupEvent, code: i32, pid: i64)
    ensures
        s.advanced(event).stage == s.stage.after(),
        s.advanced(event).test_manager_port == s.test_manager_port,
        s.advanced(event).stdio_port == s.stdio_port,
        s.advanced(event).session_id == s.session_id,
        s.stage == Stage::Channel(Peer::Session) ==> s.advanced(
            SetupEvent::Channel(code),
        ).session_channel == code,
        s.stage == Stage::Channel(Peer::Control) ==> s.advanced(
            SetupEvent::Channel(code),
        ).control_channel == code,
        s.stage == Stage::Launch ==> s.advanced(SetupEvent::Launched(pid)).pid == pid,
        s.stage != Stage::Channel(Peer::Session) ==> s.advanced(event).session_channel
            == s.session_channel,
        s.stage != Stage::Channel(Peer::Control) ==> s.advanced(event).control_channel
            == s.control_channel,
        s.stage != Stage::Launch ==> s.advanced(event).pid == s.pid,
{
}

/// What is done at each stage: both connections go to the port of the test service and ask
/// for the channel of the session, the session and the driver use the first connection, and
/// the control of the session and the authorization of the process use the second.
pub proof fn lemma_due(s: Setup, action: SetupAction)
    requires
        s.is_due(action),
    ensures
        s.stage is Output ==> action == SetupAction::ConnectOutput(s.stdio_port),
        s.stage is OutputId ==> action is ReadOutputId,
        s.stage matches Stage::Open(peer) ==> action == SetupAction::Open(peer, s.test_manager_port),
        s.stage matches Stage::Greet(peer) ==> action == SetupAction::Greet(peer),
        s.stage matches Stage::Channel(peer) ==> (action matches SetupAction::RequestChannel(p, name)
            && p == peer && name@
            == "dtxproxy:XCTestManager_IDEInterface:XCTestManager_DaemonConnectionInterface"@),
        s.stage is Driver ==> (action matches SetupAction::RequestChannel(p, name) && p is Session
            && name@ == "dtxproxy:XCTestDriverInterface:XCTestManager_IDEInterface"@),
        s.stage is StartSession ==> (action matches SetupAction::Call(p, channel, selector, args)
            && p is Session && channel == s.session_channel && selector@
            == "_IDE_initiateSessionWithIdentifier:capabilities:"@ && are_session_args(
            args@,
            s.session_id@,
        )),
        s.stage is Serve ==> action == SetupAction::Serve(s.session_channel),
        s.stage is Launch ==> action is Launch,
        s.stage is StartControl ==> (action matches SetupAction::Call(p, channel, selector, args)
            && p is Control && channel == s.control_channel && selector@
            == "_IDE_initiateControlSessionWithCapabilities:"@ && are_control_args(args@)),
        s.stage is Authorize ==> (action matches SetupAction::Call(p, channel, selector, args)
            && p is Control && channel == s.control_channel && selector@
            == "_IDE_authorizeTestSessionWithProcessID:"@ && are_authorize_args(args@, s.pid)),
        s.stage is Wait ==> action is Wait,
        !(s.stage is Begin),
{
}

} // verus!
