//! The decisions of a test run.

use vstd::prelude::*;
use crate::bytes::{bits_of_i64, i64_bits};
use crate::dtx::archive::{archive_u64, archived, class_of, held, referred, root_of, single};
use crate::dtx::{
    ack_bytes, aux_bytes, aux_models, aux_safe, encode_ack, encode_reply, header_of, is_call,
    is_message, lemma_frame_roundtrip, message_len, reply_bytes, Aux, AuxValue, DtxMessage, MsgType,
};
use crate::entries::{lemma_lookup_with, Entries};
use crate::proplist::format::{from_bytes, is_binary, plist_binary, plist_parse};
use crate::proplist::{no_entries, plain_entries, Dict, Plist, Tree};
use crate::rsd::{text_or_empty, Catalog, ServiceEntry, ServiceModel};
use crate::text::{contains, join3, occurs_in, own, same_str, trim_end, without_end};
use crate::tunnel::Error;
use super::config::{
    build_xctest_configuration_bytes, capability_dict, configuration_archive, host_capabilities,
    ConfigModel, XCTestConfigArgs,
};
use super::{archive_uuid, archive_xct_capabilities, capabilities_objects, uuid_objects};

verus! {

pub const TEST_MANAGER: &'static str = "com.apple.dt.testmanagerd.remote";

pub const APP_SERVICE: &'static str = "com.apple.coredevice.appservice";

pub const STDIO_SERVICE: &'static str = "com.apple.coredevice.openstdiosocket";

/// The channel on which the test service talks to the host.
pub const IDE_CHANNEL: &'static str = "dtxproxy:XCTestManager_IDEInterface:XCTestManager_DaemonConnectionInterface";

/// The channel on which the host talks to the runner.
pub const DRIVER_CHANNEL: &'static str = "dtxproxy:XCTestDriverInterface:XCTestManager_IDEInterface";

/// What a test run is made of.
pub struct RunConfig<'a> {
    pub bundle_id: &'a str,
    /// The path of the target application on the device.
    pub bundle_path: &'a str,
    pub test_runner_bundle_id: &'a str,
    pub xctest_config_name: &'a str,
    pub tests_to_run: &'a [String],
    pub tests_to_skip: &'a [String],
    /// Whether these are unit tests.
    pub is_xctest: bool,
    /// Whether the runner takes over the foreground.
    pub initialize_for_ui: bool,
    pub extra_env: &'a [(String, String)],
}

/// Where a run connects to, and the paths that it uses.
#[derive(Debug)]
pub struct RunPlan {
    pub test_manager_port: u16,
    pub app_service_port: u16,
    pub stdio_port: u16,
    pub runner_path: String,
    pub test_bundle_path: String,
    /// The runner, and the target application where there is one.
    pub app_dependencies: Vec<(String, String)>,
}

/// The path of an installed application.
pub open spec fn app_path(app: ServiceModel) -> Seq<char> {
    text_or_empty(app.properties, "Path"@)
}

/// The applications that a run depends on.
pub open spec fn dependencies(config: RunConfig, runner_path: Seq<char>) -> Seq<
    (Seq<char>, Seq<char>),
> {
    let runner = seq![(config.test_runner_bundle_id@, runner_path)];
    if config.bundle_id@.len() > 0 && config.bundle_path@.len() > 0 {
        runner.push((config.bundle_id@, config.bundle_path@))
    } else {
        runner
    }
}

/// The error of a run that cannot start: the first of the services that is
/// missing, or the runner.
pub open spec fn plan_error(
    services: Seq<(Seq<char>, ServiceModel)>,
    apps: Seq<(Seq<char>, ServiceModel)>,
    runner: Seq<char>,
) -> Option<Seq<char>> {
    if services.lookup(TEST_MANAGER@) is None {
        Some("testmanagerd.remote not in RSD catalog"@)
    } else if services.lookup(APP_SERVICE@) is None {
        Some("coredevice.appservice not in RSD catalog"@)
    } else if services.lookup(STDIO_SERVICE@) is None {
        Some("coredevice.openstdiosocket not in RSD catalog"@)
    } else if apps.lookup(runner) is None {
        Some("test runner '"@ + runner + "' not installed"@)
    } else {
        None
    }
}

/// The pairs of a list of strings.
pub open spec fn pair_texts(pairs: Seq<(String, String)>) -> Seq<(Seq<char>, Seq<char>)> {
    pairs.map_values(|p: (String, String)| (p.0@, p.1@))
}

/// Plans a run.
pub fn plan_run(services: &Catalog, apps: &Catalog, config: &RunConfig) -> (plan: Result<
    RunPlan,
    Error,
>)
    ensures
        match plan {
            Ok(plan) => {
                let runner = apps@.lookup(config.test_runner_bundle_id@);
                &&& plan_error(services@, apps@, config.test_runner_bundle_id@) is None
                &&& plan.test_manager_port == services@.lookup(TEST_MANAGER@)->0.port
                &&& plan.app_service_port == services@.lookup(APP_SERVICE@)->0.port
                &&& plan.stdio_port == services@.lookup(STDIO_SERVICE@)->0.port
                &&& plan.runner_path@ == app_path(runner->0)
                &&& plan.test_bundle_path@ == plan.runner_path@ + "/PlugIns/"@
                    + config.xctest_config_name@
                &&& pair_texts(plan.app_dependencies@) == dependencies(
                    *config,
                    plan.runner_path@,
                )
            },
            Err(Error::Protocol(text)) => plan_error(
                services@,
                apps@,
                config.test_runner_bundle_id@,
            ) == Some(text@),
        },
{
    let test_manager_port: u16 = match services.service(TEST_MANAGER) {
        Some(s) => s.port,
        None => {
            return Err(Error::Protocol(own("testmanagerd.remote not in RSD catalog")));
        },
    };
    let app_service_port: u16 = match services.service(APP_SERVICE) {
        Some(s) => s.port,
        None => {
            return Err(Error::Protocol(own("coredevice.appservice not in RSD catalog")));
        },
    };
    let stdio_port: u16 = match services.service(STDIO_SERVICE) {
        Some(s) => s.port,
        None => {
            return Err(Error::Protocol(own("coredevice.openstdiosocket not in RSD catalog")));
        },
    };
    let runner: &ServiceEntry = match apps.service(config.test_runner_bundle_id) {
        Some(s) => s,
        None => {
            return Err(
                Error::Protocol(
                    join3("test runner '", config.test_runner_bundle_id, "' not installed"),
                ),
            );
        },
    };
    let runner_path: String = crate::rsd::str_or(&runner.properties, "Path");
    let test_bundle_path: String = join3(
        runner_path.as_str(),
        "/PlugIns/",
        config.xctest_config_name,
    );
    let mut app_dependencies: Vec<(String, String)> = vec![
        (own(config.test_runner_bundle_id), own(runner_path.as_str())),
    ];
    if !config.bundle_id.is_empty() && !config.bundle_path.is_empty() {
        app_dependencies.push((own(config.bundle_id), own(config.bundle_path)));
    }
    assert(pair_texts(app_dependencies@) =~= dependencies(*config, runner_path@));
    Ok(
        RunPlan {
            test_manager_port,
            app_service_port,
            stdio_port,
            runner_path,
            test_bundle_path,
            app_dependencies,
        },
    )
}

/// The test configuration of a run.
pub fn run_configuration(plan: &RunPlan, config: &RunConfig, session_id: &[u8; 16]) -> (out: Vec<
    u8,
>)
    ensures
        is_binary(
            out@,
            configuration_archive(
                ConfigModel {
                    session_id: session_id@,
                    test_bundle_path: plan.test_bundle_path@,
                    product_module_name: without_end(config.xctest_config_name@, ".xctest"@),
                    target_bundle_id: config.bundle_id@,
                    target_path: config.bundle_path@,
                    tests_to_run: config.tests_to_run@,
                    tests_to_skip: config.tests_to_skip@,
                    is_xctest: config.is_xctest,
                },
            ),
        ),
{
    let module: String = trim_end(config.xctest_config_name, ".xctest");
    build_xctest_configuration_bytes(XCTestConfigArgs {
        session_id,
        test_bundle_path: plan.test_bundle_path.as_str(),
        product_module_name: module.as_str(),
        target_bundle_id: config.bundle_id,
        target_path: config.bundle_path,
        tests_to_run: config.tests_to_run,
        tests_to_skip: config.tests_to_skip,
        is_xctest: config.is_xctest,
    })
}

/// Whether an argument is the archive of a tree.
pub open spec fn holds_archive(arg: AuxValue, t: Tree) -> bool {
    arg matches AuxValue::Bytes(b) && is_binary(b@, t)
}

/// Whether these are the arguments that open a session with an identifier.
pub open spec fn are_session_args(args: Seq<AuxValue>, session_id: Seq<u8>) -> bool {
    &&& args.len() == 2
    &&& holds_archive(args[0], archived(uuid_objects(session_id), 2))
    &&& holds_archive(
        args[1],
        archived(
            capabilities_objects(host_capabilities()),
            (4 + 2 * host_capabilities().len()) as u64,
        ),
    )
}

/// Whether these are the arguments that open a control session: no capabilities.
pub open spec fn are_control_args(args: Seq<AuxValue>) -> bool {
    args.len() == 1 && holds_archive(args[0], archived(capabilities_objects(no_entries()), 4))
}

/// Whether these are the arguments that authorize a process.
pub open spec fn are_authorize_args(args: Seq<AuxValue>, pid: i64) -> bool {
    args.len() == 1 && holds_archive(
        args[0],
        archived(single(Tree::Integer(i64_bits(pid) as int)), 1),
    )
}

/// The arguments of `_IDE_initiateSessionWithIdentifier:capabilities:`.
pub fn session_args(session_id: &[u8; 16]) -> (args: Vec<AuxValue>)
    ensures
        are_session_args(args@, session_id@),
{
    let caps: Dict = capability_dict();
    proof {
        lemma_host_capabilities_len();
    }
    vec![
        AuxValue::Bytes(archive_uuid(session_id)),
        AuxValue::Bytes(archive_xct_capabilities(&caps)),
    ]
}

proof fn lemma_host_capabilities_len()
    ensures
        host_capabilities().len() <= 10,
{
}

/// The arguments of `_IDE_initiateControlSessionWithCapabilities:`.
pub fn control_args() -> (args: Vec<AuxValue>)
    ensures
        are_control_args(args@),
{
    let none: Dict = Dict::new();
    assert(plain_entries(none@));
    vec![AuxValue::Bytes(archive_xct_capabilities(&none))]
}

/// The arguments of `_IDE_authorizeTestSessionWithProcessID:`.
pub fn authorize_args(pid: i64) -> (args: Vec<AuxValue>)
    ensures
        are_authorize_args(args@, pid),
{
    vec![AuxValue::Bytes(archive_u64(bits_of_i64(pid)))]
}

/// The command that starts the plan.
pub const START_SELECTOR: &'static str = "_IDE_startExecutingTestPlanWithProtocolVersion:";

/// The arguments of the command that starts the plan.
pub fn start_args() -> (args: Vec<AuxValue>)
    ensures
        args@.len() == 1,
        holds_archive(args@[0], archived(single(Tree::Integer(36)), 1)),
{
    vec![AuxValue::Bytes(archive_u64(36))]
}

/// The string in an archive of a string: the second object.
pub open spec fn archived_text(t: Tree) -> Option<Seq<char>> {
    match t.at("$objects"@) {
        Some(Tree::Array(objects)) if objects.len() >= 2 => objects[1].text(),
        _ => None,
    }
}

/// Takes the string out of an archive of a string.
pub fn archived_string(v: &Plist) -> (s: Option<String>)
    ensures
        match s {
            Some(s) => archived_text(v@) == Some(s@),
            None => archived_text(v@) is None,
        },
{
    match v.at("$objects") {
        Some(objects) => match objects.as_array() {
            Some(items) => {
                if items.len() >= 2 {
                    assert(objects@->Array_0[1] == items@[1]@);
                    match items[1].as_string() {
                        Some(s) => Some(own(s)),
                        None => None,
                    }
                } else {
                    None
                }
            },
            None => None,
        },
        None => None,
    }
}

/// The selector of a call: the archived payload, or nothing.
pub open spec fn selector_of(msg: DtxMessage) -> Seq<char> {
    match msg.payload_tree() {
        Some(t) => match archived_text(t) {
            Some(s) => s,
            None => Seq::empty(),
        },
        None => Seq::empty(),
    }
}

/// A call is read back with its selector and its arguments.
pub proof fn lemma_call_understood(
    bytes: Seq<u8>,
    msg_id: u32,
    conv_id: u32,
    channel: i32,
    expects_reply: bool,
    selector: Seq<char>,
    aux: Seq<Aux>,
    msg: DtxMessage,
)
    requires
        is_call(bytes, msg_id, conv_id, channel, expects_reply, selector, aux),
        aux_safe(aux),
        bytes.len() <= u32::MAX,
        is_message(msg, header_of(bytes.take(32)), bytes.skip(32)),
    ensures
        selector_of(msg) == selector,
        aux_models(msg.aux@) == aux,
        msg.msg_id == msg_id,
        msg.conv_id == conv_id,
        msg.channel == channel,
        msg.expects_reply == expects_reply,
        msg.msg_type == MsgType::MethodInvoke.number(),
{
    let archive = archived(single(Tree::String(selector)), 1);
    let payload = plist_binary(archive);
    assert(message_len(aux_bytes(aux), payload) <= bytes.len()) by {
        broadcast use crate::bytes::lemma_le_bytes_len;

    }
    lemma_frame_roundtrip(
        msg_id,
        conv_id,
        channel,
        expects_reply,
        MsgType::MethodInvoke.number(),
        aux,
        payload,
    );
    broadcast use lemma_lookup_with;

    assert(archive.at("$objects"@) == Some(Tree::Array(single(Tree::String(selector)))));
}

/// The archived string that an argument holds.
pub open spec fn argument_text(msg: DtxMessage, i: int) -> Option<Seq<char>> {
    if i < msg.aux@.len() {
        match msg.aux@[i] {
            AuxValue::Bytes(b) => match plist_parse(b@) {
                Ok(t) => archived_text(t),
                Err(_) => None,
            },
            _ => None,
        }
    } else {
        None
    }
}

fn selector(msg: &DtxMessage) -> (s: String)
    ensures
        s@ == selector_of(*msg),
{
    match &msg.payload {
        Some(p) => match archived_string(p) {
            Some(s) => s,
            None => empty(),
        },
        None => empty(),
    }
}

fn empty() -> (s: String)
    ensures
        s@ == Seq::<char>::empty(),
{
    String::new()
}

fn argument_string(msg: &DtxMessage, i: usize) -> (s: Option<String>)
    ensures
        match s {
            Some(s) => argument_text(*msg, i as int) == Some(s@),
            None => argument_text(*msg, i as int) is None,
        },
{
    if i < msg.aux.len() {
        match &msg.aux[i] {
            AuxValue::Bytes(b) => match from_bytes(b.as_slice()) {
                Ok(p) => archived_string(&p),
                Err(_) => None,
            },
            _ => None,
        }
    } else {
        None
    }
}

/// The channel on which the runner registers its driver interface, if this
/// message says so.
pub open spec fn driver_code(msg: DtxMessage) -> Option<i32> {
    if occurs_in(selector_of(msg), "requestChannelWithCode"@) && msg.aux@.len() > 0 {
        match (msg.aux@[0], argument_text(msg, 1)) {
            (AuxValue::Int32(code), Some(name)) => if occurs_in(name, "XCTestDriverInterface"@) {
                Some(code)
            } else {
                None
            },
            _ => None,
        }
    } else {
        None
    }
}

/// The code of a channel as the other side counts it. The smallest has no opposite.
pub open spec fn opposite(code: i32) -> i32 {
    if code == i32::MIN {
        code
    } else {
        (-code) as i32
    }
}

/// The channel on which calls reach the runner: the negative of the code under
/// which it registers its driver interface.
pub fn driver_channel(msg: &DtxMessage) -> (channel: Option<i32>)
    ensures
        match driver_code(*msg) {
            Some(code) => channel == Some(opposite(code)),
            None => channel is None,
        },
{
    let sel: String = selector(msg);
    if !contains(sel.as_str(), "requestChannelWithCode") || msg.aux.len() == 0 {
        return None;
    }
    let code: i32 = match &msg.aux[0] {
        AuxValue::Int32(code) => *code,
        _ => {
            return None;
        },
    };
    match argument_string(msg, 1) {
        Some(name) => if contains(name.as_str(), "XCTestDriverInterface") {
            if code == i32::MIN {
                Some(code)
            } else {
                Some(-code)
            }
        } else {
            None
        },
        None => None,
    }
}

/// How far a run has come.
#[derive(Clone, Copy, Debug, PartialEq, Eq, Structural)]
pub struct RunState {
    /// Whether some test case has finished.
    pub test_case_finished: bool,
    /// Whether the start command has gone out.
    pub plan_started: bool,
}

/// What a call from the runner asks for.
#[derive(Clone, Copy, Debug, PartialEq, Eq, Structural)]
pub enum Event {
    /// The runner is ready and wants its configuration.
    Ready,
    /// The whole plan has finished.
    PlanFinished,
    /// One test case has finished.
    CaseFinished,
    /// A suite has finished.
    SuiteFinished,
    /// Anything else.
    Other,
}

/// What a selector stands for. After a test case has finished, the end of a suite
/// counts as the end of the run.
pub open spec fn event_of(sel: Seq<char>, test_case_finished: bool) -> Event {
    if occurs_in(sel, "testRunnerReadyWithCapabilities"@) {
        Event::Ready
    } else if occurs_in(sel, "didFinishExecutingTestPlan"@) {
        Event::PlanFinished
    } else if occurs_in(sel, "testCaseWithIdentifier:didFinishWithStatus:duration:"@)
        || occurs_in(sel, "testCaseDidFinishForTestClass:method:"@) {
        Event::CaseFinished
    } else if test_case_finished && occurs_in(sel, "testSuiteWithIdentifier:didFinishAt:"@) {
        Event::SuiteFinished
    } else {
        Event::Other
    }
}

fn classify(sel: &str, test_case_finished: bool) -> (e: Event)
    ensures
        e == event_of(sel@, test_case_finished),
{
    if contains(sel, "testRunnerReadyWithCapabilities") {
        Event::Ready
    } else if contains(sel, "didFinishExecutingTestPlan") {
        Event::PlanFinished
    } else if contains(sel, "testCaseWithIdentifier:didFinishWithStatus:duration:") || contains(
        sel,
        "testCaseDidFinishForTestClass:method:",
    ) {
        Event::CaseFinished
    } else if test_case_finished && contains(sel, "testSuiteWithIdentifier:didFinishAt:") {
        Event::SuiteFinished
    } else {
        Event::Other
    }
}

/// What to do about a call from the runner.
#[derive(Debug)]
pub struct Steps {
    /// Bytes to send: the reply with the configuration, or an acknowledgement.
    pub send: Option<Vec<u8>>,
    /// Send the command that starts the plan.
    pub start_plan: bool,
    /// Tell the run that it is over.
    pub done: bool,
    /// Handle no more calls.
    pub stop: bool,
    /// The status with which a test case has finished, if the call tells it.
    pub status: Option<String>,
}

/// Which argument of a call about a finished test case is the status: the second one of
/// `testCaseWithIdentifier:didFinishWithStatus:duration:`, and the third one of
/// `testCaseDidFinishForTestClass:method:withStatus:duration:`.
pub open spec fn status_place(sel: Seq<char>) -> Option<usize> {
    if occurs_in(sel, "didFinishWithStatus:"@) {
        Some(1)
    } else if occurs_in(sel, "testCaseDidFinishForTestClass:method:withStatus:"@) {
        Some(2)
    } else {
        None
    }
}

/// The status that a call reports of a test case.
pub open spec fn reported_status(state: RunState, msg: DtxMessage) -> Option<Seq<char>> {
    if event_of(selector_of(msg), state.test_case_finished) is CaseFinished {
        match status_place(selector_of(msg)) {
            Some(i) => argument_text(msg, i as int),
            None => None,
        }
    } else {
        None
    }
}

/// The status of a test case that did not pass.
pub const FAILED: &'static str = "failed";

/// Whether a run passed: no test case was reported as failed.
pub fn run_passed(statuses: &[String]) -> (passed: bool)
    ensures
        passed <==> forall|i: int|
            0 <= i < statuses@.len() ==> (#[trigger] statuses@[i])@ != FAILED@,
{
    let mut i: usize = 0;
    assert(statuses@.len() == statuses.len());
    while i < statuses.len()
        invariant
            statuses@.len() == statuses.len(),
            i <= statuses@.len(),
            forall|j: int| 0 <= j < i ==> (#[trigger] statuses@[j])@ != FAILED@,
        decreases statuses@.len() - i,
    {
        if same_str(statuses[i].as_str(), FAILED) {
            return false;
        }
        i += 1;
    }
    true
}

/// Whether a call tells that the runner waits for the start command.
pub open spec fn wants_start(state: RunState, msg: DtxMessage) -> bool {
    &&& event_of(selector_of(msg), state.test_case_finished) is Other
    &&& !state.plan_started
    &&& argument_text(msg, 0) matches Some(text) && occurs_in(
        text,
        "requesting ready for testing"@,
    )
}

impl RunState {
    /// A run that has just begun.
    pub fn new() -> (state: RunState)
        ensures
            !state.test_case_finished,
            !state.plan_started,
    {
        RunState { test_case_finished: false, plan_started: false }
    }

    /// Decides what to do about a call from the runner.
    pub fn handle(&mut self, msg: &DtxMessage, configuration: &[u8]) -> (steps: Steps)
        requires
            msg.expects_reply ==> msg.conv_id < u32::MAX,
        ensures
            match steps.status {
                Some(s) => reported_status(*old(self), *msg) == Some(s@),
                None => reported_status(*old(self), *msg) is None,
            },
            ({
                let e = event_of(selector_of(*msg), old(self).test_case_finished);
                &&& match steps.send {
                    Some(out) => if e is Ready {
                        out@ == reply_bytes(*msg, configuration@)
                    } else {
                        msg.expects_reply && out@ == ack_bytes(
                            msg.msg_id,
                            (msg.conv_id + 1) as u32,
                            msg.channel,
                        )
                    },
                    None => !(e is Ready) && !msg.expects_reply,
                }
                &&& steps.done == (e is PlanFinished || e is SuiteFinished)
                &&& steps.stop == (e is PlanFinished)
                &&& steps.start_plan == wants_start(*old(self), *msg)
                &&& final(self).test_case_finished == (old(self).test_case_finished
                    || e is CaseFinished)
                &&& final(self).plan_started == (old(self).plan_started || steps.start_plan)
            }),
    {
        let sel: String = selector(msg);
        let event: Event = classify(sel.as_str(), self.test_case_finished);
        if event == Event::Ready {
            return Steps {
                send: Some(encode_reply(msg, configuration)),
                start_plan: false,
                done: false,
                stop: false,
                status: None,
            };
        }
        let send: Option<Vec<u8>> = if msg.expects_reply {
            Some(encode_ack(msg))
        } else {
            None
        };
        let mut start_plan: bool = false;
        let mut status: Option<String> = None;
        if event == Event::CaseFinished {
            self.test_case_finished = true;
            if contains(sel.as_str(), "didFinishWithStatus:") {
                status = argument_string(msg, 1);
            } else if contains(sel.as_str(), "testCaseDidFinishForTestClass:method:withStatus:") {
                status = argument_string(msg, 2);
            }
        } else if event == Event::Other && !self.plan_started {
            if let Some(text) = argument_string(msg, 0) {
                start_plan = contains(text.as_str(), "requesting ready for testing");
            }
            if start_plan {
                self.plan_started = true;
            }
        }
        Steps {
            send,
            start_plan,
            done: event == Event::PlanFinished || event == Event::SuiteFinished,
            stop: event == Event::PlanFinished,
            status,
        }
    }
}

/// The start command goes out at most once: a run in which it has gone out does
/// not ask for it again.
pub proof fn lemma_started_once(state: RunState, msg: DtxMessage)
    requires
        state.plan_started,
    ensures
        !wants_start(state, msg),
{
}

/// What the runner's output channel has to offer.
#[derive(Clone, Copy, Debug, PartialEq, Eq, Structural)]
pub enum Output {
    Data,
    Empty,
    Disconnected,
}

/// Whether the wait for the end of a run goes on. It ends when the runner exits,
/// when the plan has finished, or when the time is up.
pub fn keep_waiting(output: Output, done: bool, late: bool) -> (go_on: bool)
    ensures
        go_on == (output != Output::Disconnected && !done && !late),
{
    output != Output::Disconnected && !done && !late
}

/// A run needs three services, by their names, and its runner; the first that is missing is
/// told.
pub proof fn lemma_plans(
    services: Seq<(Seq<char>, ServiceModel)>,
    apps: Seq<(Seq<char>, ServiceModel)>,
    runner: Seq<char>,
)
    ensures
        plan_error(services, apps, runner) is None <==> {
            &&& services.lookup("com.apple.dt.testmanagerd.remote"@) is Some
            &&& services.lookup("com.apple.coredevice.appservice"@) is Some
            &&& services.lookup("com.apple.coredevice.openstdiosocket"@) is Some
            &&& apps.lookup(runner) is Some
        },
        services.lookup("com.apple.dt.testmanagerd.remote"@) is None ==> plan_error(
            services,
            apps,
            runner,
        ) == Some("testmanagerd.remote not in RSD catalog"@),
        services.lookup("com.apple.dt.testmanagerd.remote"@) is Some && services.lookup(
            "com.apple.coredevice.appservice"@,
        ) is None ==> plan_error(services, apps, runner) == Some(
            "coredevice.appservice not in RSD catalog"@,
        ),
{
}

/// A run depends on its runner, and behind it on the target where both its name and its
/// path are given.
pub proof fn lemma_dependencies(config: RunConfig, runner_path: Seq<char>)
    ensures
        ({
            let d = dependencies(config, runner_path);
            let target = config.bundle_id@.len() > 0 && config.bundle_path@.len() > 0;
            &&& d.len() == if target {
                2int
            } else {
                1
            }
            &&& d[0] == (config.test_runner_bundle_id@, runner_path)
            &&& target ==> d[1] == (config.bundle_id@, config.bundle_path@)
        }),
{
}

/// The path of an application is the text under `Path` of its properties.
pub proof fn lemma_app_path(app: ServiceModel)
    ensures
        app.properties.lookup("Path"@) matches Some(crate::xpc::Model::String(s)) ==> app_path(app)
            == s,
        app.properties.lookup("Path"@) is None ==> app_path(app).len() == 0,
{
}

/// The arguments that open a session are read as its identifier and the capabilities of the
/// host.
pub proof fn lemma_session_args(args: Seq<AuxValue>, session_id: Seq<u8>, i: int)
    requires
        are_session_args(args, session_id),
    ensures
        args.len() == 2,
        ({
            &&& args[0] matches AuxValue::Bytes(b)
            &&& plist_parse(b@) matches Ok(archive)
            &&& root_of(archive) matches Some(root)
            &&& class_of(archive, root) == Some("NSUUID"@)
            &&& root.at("NS.uuidbytes"@) == Some(Tree::Data(session_id))
        }),
        ({
            &&& args[1] matches AuxValue::Bytes(b)
            &&& plist_parse(b@) matches Ok(archive)
            &&& root_of(archive) matches Some(root)
            &&& class_of(archive, root) == Some("XCTCapabilities"@)
            &&& held(archive, root, "capabilities-dictionary"@) matches Some(able)
            &&& able.at("NS.keys"@) matches Some(Tree::Array(keys))
            &&& able.at("NS.objects"@) matches Some(Tree::Array(values))
            &&& keys.len() == host_capabilities().len()
            &&& 0 <= i < keys.len() ==> referred(archive, keys[i]) == Some(
                Tree::String(host_capabilities()[i].0),
            ) && referred(archive, values[i]) == Some(host_capabilities()[i].1)
        }),
{
    lemma_host_capabilities_len();
    super::lemma_uuid_archive(session_id);
    super::lemma_capabilities_archive(host_capabilities(), i);
}

/// The argument that opens a control session is read as no capabilities, and the one that
/// authorizes a process as its number.
pub proof fn lemma_control_args(args: Seq<AuxValue>, pid: i64)
    ensures
        are_control_args(args) ==> {
            &&& args.len() == 1
            &&& args[0] matches AuxValue::Bytes(b)
            &&& plist_parse(b@) matches Ok(archive)
            &&& root_of(archive) matches Some(root)
            &&& class_of(archive, root) == Some("XCTCapabilities"@)
            &&& held(archive, root, "capabilities-dictionary"@) matches Some(able)
            &&& able.at("NS.keys"@) matches Some(Tree::Array(keys))
            &&& keys.len() == 0
        },
        are_authorize_args(args, pid) ==> {
            &&& args.len() == 1
            &&& args[0] matches AuxValue::Bytes(b)
            &&& plist_parse(b@) matches Ok(archive)
            &&& root_of(archive) == Some(
                Tree::Integer(
                    if pid >= 0 {
                        pid as int
                    } else {
                        pid + 0x1_0000_0000_0000_0000
                    },
                ),
            )
        },
{
    super::lemma_capabilities_archive(no_entries(), 0);
    crate::dtx::archive::lemma_single_resolves(Tree::Integer(i64_bits(pid) as int));
}

/// The string of an archived string is that string.
pub proof fn lemma_archived_text(s: Seq<char>)
    ensures
        archived_text(archived(single(Tree::String(s)), 1)) == Some(s),
{
    crate::dtx::archive::lemma_archive_resolves(single(Tree::String(s)), 1);
}

/// Calls reach the runner on the negative of the code that it asked for.
pub proof fn lemma_opposite(code: i32)
    ensures
        code > i32::MIN ==> opposite(code) + code == 0,
        code == i32::MIN ==> opposite(code) == code,
{
}

/// The runner registers its driver by a call whose selector and name say so; the code is
/// the first argument.
pub proof fn lemma_driver_code(msg: DtxMessage)
    ensures
        driver_code(msg) matches Some(code) ==> {
            &&& occurs_in(selector_of(msg), "requestChannelWithCode"@)
            &&& msg.aux@.len() > 0
            &&& msg.aux@[0] == AuxValue::Int32(code)
            &&& argument_text(msg, 1) matches Some(name) && occurs_in(
                name,
                "XCTestDriverInterface"@,
            )
        },
        occurs_in(selector_of(msg), "requestChannelWithCode"@) && msg.aux@.len() > 0 ==> (
        msg.aux@[0] matches AuxValue::Int32(code) ==> (argument_text(msg, 1) matches Some(name) ==> (
        occurs_in(name, "XCTestDriverInterface"@) ==> driver_code(msg) == Some(code)))),
{
}

/// What each selector stands for, in the order in which they are looked for. The end of a
/// suite counts only after a test case has finished.
pub proof fn lemma_selectors(sel: Seq<char>, finished: bool)
    ensures
        ({
            let ready = occurs_in(sel, "testRunnerReadyWithCapabilities"@);
            let plan = occurs_in(sel, "didFinishExecutingTestPlan"@);
            let case = occurs_in(sel, "testCaseWithIdentifier:didFinishWithStatus:duration:"@)
                || occurs_in(sel, "testCaseDidFinishForTestClass:method:"@);
            let suite = occurs_in(sel, "testSuiteWithIdentifier:didFinishAt:"@);
            &&& event_of(sel, finished) is Ready <==> ready
            &&& event_of(sel, finished) is PlanFinished <==> !ready && plan
            &&& event_of(sel, finished) is CaseFinished <==> !ready && !plan && case
            &&& event_of(sel, finished) is SuiteFinished <==> !ready && !plan && !case && finished
                && suite
        }),
{
}

/// Where the status of a test case stands among the arguments, and what is reported of it.
pub proof fn lemma_statuses(sel: Seq<char>, state: RunState, msg: DtxMessage)
    ensures
        occurs_in(sel, "didFinishWithStatus:"@) ==> status_place(sel) == Some(1usize),
        !occurs_in(sel, "didFinishWithStatus:"@) && occurs_in(
            sel,
            "testCaseDidFinishForTestClass:method:withStatus:"@,
        ) ==> status_place(sel) == Some(2usize),
        !occurs_in(sel, "didFinishWithStatus:"@) && !occurs_in(
            sel,
            "testCaseDidFinishForTestClass:method:withStatus:"@,
        ) ==> status_place(sel) is None,
        reported_status(state, msg) matches Some(s) ==> event_of(
            selector_of(msg),
            state.test_case_finished,
        ) is CaseFinished && (status_place(selector_of(msg)) matches Some(i) && argument_text(
            msg,
            i as int,
        ) == Some(s)),
        event_of(selector_of(msg), state.test_case_finished) is CaseFinished ==> (status_place(
            selector_of(msg),
        ) matches Some(i) ==> reported_status(state, msg) == argument_text(msg, i as int)),
{
}

/// The plan is started exactly by the first call of no other meaning whose text asks to be
/// made ready.
pub proof fn lemma_start(state: RunState, msg: DtxMessage)
    ensures
        wants_start(state, msg) ==> !state.plan_started && (argument_text(msg, 0) matches Some(t)
            && occurs_in(t, "requesting ready for testing"@)),
        !state.plan_started && event_of(selector_of(msg), state.test_case_finished) is Other ==> (
        argument_text(msg, 0) matches Some(t) ==> (occurs_in(t, "requesting ready for testing"@)
            ==> wants_start(state, msg))),
{
}

/// The status of a failed test case, and the command that starts the plan.
pub proof fn lemma_words()
    ensures
        FAILED@ == "failed"@,
        START_SELECTOR@ == "_IDE_startExecutingTestPlanWithProtocolVersion:"@,
{
}

/// A run is refused for the first of the things it needs that is missing: the services in
/// their order, and the runner, which is named.
pub proof fn lemma_plan_refusals(
    services: Seq<(Seq<char>, ServiceModel)>,
    apps: Seq<(Seq<char>, ServiceModel)>,
    runner: Seq<char>,
)
    ensures
        services.lookup(TEST_MANAGER@) is None
            ==> plan_error(services, apps, runner)
            == Some("testmanagerd.remote not in RSD catalog"@),
        services.lookup(TEST_MANAGER@) is Some && services.lookup(APP_SERVICE@) is None
            ==> plan_error(services, apps, runner)
            == Some("coredevice.appservice not in RSD catalog"@),
        services.lookup(TEST_MANAGER@) is Some && services.lookup(APP_SERVICE@) is Some
            && services.lookup(STDIO_SERVICE@) is None
            ==> plan_error(services, apps, runner)
            == Some("coredevice.openstdiosocket not in RSD catalog"@),
        services.lookup(TEST_MANAGER@) is Some && services.lookup(APP_SERVICE@) is Some
            && services.lookup(STDIO_SERVICE@) is Some && apps.lookup(runner) is None
            ==> plan_error(services, apps, runner)
            == Some("test runner '"@ + runner + "' not installed"@),
{
}

/// An argument is read as text where there is one, it is bytes, and these are a property
/// list; past the last argument there is no text.
pub proof fn lemma_argument_text(msg: DtxMessage, i: int)
    ensures
        i >= msg.aux@.len() ==> argument_text(msg, i) is None,
        0 <= i < msg.aux@.len() && msg.aux@[i] !is Bytes ==> argument_text(msg, i) is None,
        0 <= i < msg.aux@.len() && msg.aux@[i] is Bytes
            ==> (match plist_parse(msg.aux@[i]->Bytes_0@) {
            Ok(t) => argument_text(msg, i) == archived_text(t),
            Err(_) => argument_text(msg, i) is None,
        }),
{
}

} // verus!
