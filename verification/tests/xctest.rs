//! Test runs: their plan, their configuration, and their course.

use ios_rs::dtx::archive::{archive_string, archive_u64};
use ios_rs::dtx::{read_message, AuxValue, DtxMessage};
use ios_rs::proplist::format::from_bytes;
use ios_rs::proplist::{Dict, Plist};
use ios_rs::rsd::{Catalog, ServiceEntry};
use ios_rs::tunnel::Error;
use ios_rs::uuid::{mark_random, uuid_from_time, uuid_to_lower_string, uuid_to_upper_string};
use ios_rs::xctest::config::{build_xctest_configuration_bytes, XCTestConfigArgs};
use ios_rs::xctest::launch::{
    build_environment, build_launch_request, build_options, launched_pid, LaunchArgs,
};
use ios_rs::xctest::run::{
    authorize_args, control_args, driver_channel, keep_waiting, plan_run, run_configuration,
    run_passed, session_args, start_args, Output, RunConfig, RunState, APP_SERVICE, STDIO_SERVICE,
    START_SELECTOR, TEST_MANAGER,
};
use ios_rs::xctest::setup::{Peer, Setup, SetupAction, SetupEvent, Stage};
use ios_rs::xctest::{archive_url, archive_uuid, archive_xct_capabilities};
use ios_rs::xpc::{Dictionary, Value};

fn why(e: Error) -> String {
    let Error::Protocol(t) = e;
    t
}

fn service(port: u16) -> ServiceEntry {
    ServiceEntry { port, uses_remote_xpc: true, properties: Dictionary::new() }
}

fn services() -> Catalog {
    let mut c = Catalog::new();
    c.add(TEST_MANAGER.into(), service(1));
    c.add(APP_SERVICE.into(), service(2));
    c.add(STDIO_SERVICE.into(), service(3));
    c
}

fn apps() -> Catalog {
    let mut c = Catalog::new();
    let mut runner = service(0);
    runner.properties.put_str("Path", "/var/Runner.app");
    c.add("com.x.runner".into(), runner);
    c
}

fn config<'a>() -> RunConfig<'a> {
    RunConfig {
        bundle_id: "com.x.app",
        bundle_path: "/var/App.app",
        test_runner_bundle_id: "com.x.runner",
        xctest_config_name: "Tests.xctest",
        tests_to_run: &[],
        tests_to_skip: &[],
        is_xctest: false,
        initialize_for_ui: true,
        extra_env: &[],
    }
}

fn call(selector: &str, aux: Vec<AuxValue>, expects_reply: bool) -> DtxMessage {
    DtxMessage {
        msg_id: 5,
        conv_id: 0,
        channel: -1,
        expects_reply,
        msg_type: 2,
        aux,
        payload: Some(from_bytes(&archive_string(selector)).unwrap()),
    }
}

fn objects(bytes: &[u8]) -> Vec<Plist> {
    let p = from_bytes(bytes).unwrap();
    p.at("$objects").unwrap().as_array().unwrap().iter().map(|o| o.dup()).collect()
}

#[test]
fn runs_are_planned() {
    let plan = plan_run(&services(), &apps(), &config()).unwrap();
    assert_eq!((plan.test_manager_port, plan.app_service_port, plan.stdio_port), (1, 2, 3));
    assert_eq!(plan.runner_path, "/var/Runner.app");
    assert_eq!(plan.test_bundle_path, "/var/Runner.app/PlugIns/Tests.xctest");
    assert_eq!(plan.app_dependencies.len(), 2);
    assert_eq!(plan.app_dependencies[1].0, "com.x.app");
    let mut alone = config();
    alone.bundle_id = "";
    assert_eq!(plan_run(&services(), &apps(), &alone).unwrap().app_dependencies.len(), 1);
}

#[test]
fn plans_need_services_and_a_runner() {
    assert_eq!(
        why(plan_run(&Catalog::new(), &apps(), &config()).unwrap_err()),
        "testmanagerd.remote not in RSD catalog"
    );
    let mut some = Catalog::new();
    some.add(TEST_MANAGER.into(), service(1));
    assert_eq!(
        why(plan_run(&some, &apps(), &config()).unwrap_err()),
        "coredevice.appservice not in RSD catalog"
    );
    some.add(APP_SERVICE.into(), service(1));
    assert_eq!(
        why(plan_run(&some, &apps(), &config()).unwrap_err()),
        "coredevice.openstdiosocket not in RSD catalog"
    );
    assert_eq!(
        why(plan_run(&services(), &Catalog::new(), &config()).unwrap_err()),
        "test runner 'com.x.runner' not installed"
    );
}

#[test]
fn configurations_name_the_bundle() {
    let tests = ["A/b".to_string()];
    let id = [1u8; 16];
    let out = build_xctest_configuration_bytes(XCTestConfigArgs {
        session_id: &id,
        test_bundle_path: "/p/T.xctest",
        product_module_name: "T",
        target_bundle_id: "com.x.app",
        target_path: "/a",
        tests_to_run: &tests,
        tests_to_skip: &[],
        is_xctest: false,
    });
    let all = objects(&out);
    for text in ["T", "com.x.app", "XCTestConfiguration"] {
        let found = all.iter().any(|o| {
            o.as_string() == Some(text) || o.text_at("$classname") == Some(text)
        });
        assert!(found, "{text} not found");
    }
    let set = all.iter().find_map(|o| o.at("NS.objects")).unwrap();
    assert_eq!(set.as_array().unwrap()[0].as_string(), Some("A/b"));
    let object = all.last().unwrap();
    assert_eq!(object.truth_at("initializeForUITesting"), Some(true));
    assert!(object.at("testsToRun").is_some() && object.at("testsToSkip").is_none());
    let plan = plan_run(&services(), &apps(), &config()).unwrap();
    let run = run_configuration(&plan, &config(), &id);
    assert!(objects(&run).iter().any(|o| o.as_string() == Some("Tests")));
}

#[test]
fn archived_objects() {
    let all = objects(&archive_uuid(&[7; 16]));
    assert_eq!(all[1].text_at("$classname"), Some("NSUUID"));
    assert_eq!(all[2].data_at("NS.uuidbytes"), Some(&[7u8; 16][..]));
    assert!(objects(&archive_url("file:///x")).iter().any(|o| o.as_string() == Some("file:///x")));
    let mut caps = Dict::new();
    caps.put("XCTIssue capability", Plist::number(1));
    assert!(objects(&archive_xct_capabilities(&caps))
        .iter()
        .any(|o| o.as_string() == Some("XCTIssue capability")));
}

#[test]
fn arguments_of_the_test_service() {
    let args = session_args(&[3; 16]);
    assert_eq!(args.len(), 2);
    assert!(matches!(&args[0], AuxValue::Bytes(b) if *b == archive_uuid(&[3; 16])));
    assert_eq!(control_args().len(), 1);
    assert!(matches!(&authorize_args(42)[0], AuxValue::Bytes(b) if *b == archive_u64(42)));
    assert!(matches!(&start_args()[0], AuxValue::Bytes(b) if *b == archive_u64(36)));
}

#[test]
fn the_driver_registers() {
    let name = AuxValue::Bytes(archive_string("dtxproxy:XCTestDriverInterface:X"));
    let msg = call("_requestChannelWithCode:identifier:", vec![AuxValue::Int32(4), name], true);
    assert_eq!(driver_channel(&msg), Some(-4));
    let name = AuxValue::Bytes(archive_string("dtxproxy:Other"));
    let msg = call("_requestChannelWithCode:identifier:", vec![AuxValue::Int32(4), name], true);
    assert_eq!(driver_channel(&msg), None);
    let name = AuxValue::Bytes(archive_string("XCTestDriverInterface"));
    let msg = call("other:", vec![AuxValue::Int32(4), name], true);
    assert_eq!(driver_channel(&msg), None);
}

#[test]
fn a_run_takes_its_course() {
    let mut state = RunState::new();
    let ready = call("_XCT_testRunnerReadyWithCapabilities:", vec![], true);
    let steps = state.handle(&ready, b"conf");
    let reply = steps.send.unwrap();
    assert!(reply.ends_with(b"conf"));
    assert!(!steps.start_plan && !steps.done && !steps.stop);

    let log = AuxValue::Bytes(archive_string("xx requesting ready for testing yy"));
    let steps = state.handle(&call("_XCT_logDebugMessage:", vec![log], false), b"conf");
    assert!(steps.start_plan && steps.send.is_none());
    let log = AuxValue::Bytes(archive_string("requesting ready for testing"));
    let steps = state.handle(&call("_XCT_logDebugMessage:", vec![log], true), b"conf");
    assert!(!steps.start_plan);
    assert_eq!(read_message(&steps.send.unwrap()).unwrap().unwrap().msg_type, 0);

    let suite = "_XCT_testSuiteWithIdentifier:didFinishAt:runCount:";
    assert!(!state.handle(&call(suite, vec![], false), b"").done);
    let case = "_XCT_testCaseDidFinishForTestClass:method:withStatus:duration:";
    assert!(!state.handle(&call(case, vec![], false), b"").done);
    assert!(state.test_case_finished);
    let steps = state.handle(&call(suite, vec![], false), b"");
    assert!(steps.done && !steps.stop);
    let steps = state.handle(&call("_XCT_didFinishExecutingTestPlan", vec![], false), b"");
    assert!(steps.done && steps.stop);
}

#[test]
fn waits_end() {
    assert!(keep_waiting(Output::Data, false, false));
    assert!(!keep_waiting(Output::Disconnected, false, false));
    assert!(!keep_waiting(Output::Empty, true, false));
    assert!(!keep_waiting(Output::Empty, false, true));
}

#[test]
fn runners_are_launched() {
    let extra = [("A".to_string(), "b".to_string())];
    let env = build_environment("SID", "/b", &extra, false, true);
    assert_eq!(env.get("A").unwrap().as_str(), Some("b"));
    assert_eq!(env.get("XCTestSessionIdentifier").unwrap().as_str(), Some("SID"));
    assert_ne!(build_options(false, true).len(), 0);
    assert_eq!(build_options(true, true).len(), 0);
    let req = build_launch_request(&LaunchArgs {
        device_id: "DEV",
        invocation_id: "INV",
        bundle_id: "com.x.runner",
        session_id: "SID",
        test_bundle_path: "/b",
        extra_env: &extra,
        is_xctest: false,
        initialize_for_ui: true,
        stdio_uuid: &[2; 16],
    });
    assert_eq!(
        req.at("CoreDevice.featureIdentifier").unwrap().as_str(),
        Some("com.apple.coredevice.feature.launchapplication")
    );
    assert_eq!(req.at("CoreDevice.deviceIdentifier").unwrap().as_str(), Some("DEV"));
    assert!(req.at("CoreDevice.input").unwrap().as_dict().is_some());

    let mut token = Dictionary::new();
    token.put("processIdentifier", Value::Int64(77));
    let mut output = Dictionary::new();
    output.put("processToken", Value::Dictionary(token));
    let mut reply = Dictionary::new();
    reply.put("CoreDevice.output", Value::Dictionary(output));
    assert_eq!(launched_pid(&Value::Dictionary(reply), "?").unwrap(), 77);
    assert_eq!(
        why(launched_pid(&Value::Null, "Null").unwrap_err()),
        "no PID in appservice reply: Null"
    );
}

#[test]
fn identifiers_are_written() {
    let id = [0x12, 0x34, 0x56, 0x78, 0x9a, 0xbc, 0xde, 0xf0, 1, 2, 3, 4, 5, 6, 7, 8];
    assert_eq!(uuid_to_upper_string(&id), "12345678-9ABC-DEF0-0102-030405060708");
    assert_eq!(uuid_to_lower_string(&id), "12345678-9abc-def0-0102-030405060708");
    let marked = mark_random(&id);
    assert_eq!((marked[6] >> 4, marked[8] >> 6), (4, 2));
    assert_eq!(uuid_from_time(1)[0], 1);
}

fn name_of(action: &SetupAction) -> String {
    match action {
        SetupAction::ConnectOutput(port) => format!("output {port}"),
        SetupAction::ReadOutputId => "id".into(),
        SetupAction::Open(peer, port) => format!("open {peer:?} {port}"),
        SetupAction::Greet(peer) => format!("greet {peer:?}"),
        SetupAction::RequestChannel(peer, name) => format!("channel {peer:?} {name}"),
        SetupAction::Call(peer, channel, selector, args) => {
            format!("call {peer:?} {channel} {selector} {}", args.len())
        }
        SetupAction::Serve(channel) => format!("serve {channel}"),
        SetupAction::Launch => "launch".into(),
        SetupAction::Wait => "wait".into(),
        SetupAction::Fail(_) => "fail".into(),
    }
}

#[test]
fn a_run_is_set_up_in_order() {
    let plan = plan_run(&services(), &apps(), &config()).unwrap();
    let mut setup = Setup::new(&plan, [7; 16]);
    let mut event = SetupEvent::Done;
    let mut seen: Vec<String> = Vec::new();
    let mut codes = [5, 9, 6].into_iter();
    while seen.last().map(String::as_str) != Some("wait") {
        let action = setup.next(event);
        seen.push(name_of(&action));
        event = match action {
            SetupAction::RequestChannel(..) => SetupEvent::Channel(codes.next().unwrap()),
            SetupAction::Launch => SetupEvent::Launched(42),
            SetupAction::Call(_, _, selector, args) => {
                if selector == "_IDE_authorizeTestSessionWithProcessID:" {
                    assert_eq!(format!("{args:?}"), format!("{:?}", authorize_args(42)));
                }
                SetupEvent::Done
            }
            _ => SetupEvent::Done,
        };
    }
    assert_eq!(
        seen,
        [
            "output 3",
            "id",
            "open Session 1",
            "open Control 1",
            "greet Session",
            "greet Control",
            "channel Session dtxproxy:XCTestManager_IDEInterface:XCTestManager_DaemonConnectionInterface",
            "call Session 5 _IDE_initiateSessionWithIdentifier:capabilities: 2",
            "channel Session dtxproxy:XCTestDriverInterface:XCTestManager_IDEInterface",
            "serve 5",
            "launch",
            "channel Control dtxproxy:XCTestManager_IDEInterface:XCTestManager_DaemonConnectionInterface",
            "call Control 6 _IDE_initiateControlSessionWithCapabilities: 1",
            "call Control 6 _IDE_authorizeTestSessionWithProcessID: 1",
            "wait",
        ]
    );
    assert_eq!(setup.pid, 42);
    assert!(matches!(setup.next(SetupEvent::Done), SetupAction::Wait));
}

#[test]
fn failures_say_what_failed() {
    let plan = plan_run(&services(), &apps(), &config()).unwrap();
    let mut setup = Setup::new(&plan, [7; 16]);
    let mut told: Vec<String> = Vec::new();
    loop {
        match setup.next(SetupEvent::Failed("x".into())) {
            SetupAction::Fail(e) => told.push(why(e)),
            _ => panic!("a failure ends the run"),
        }
        if setup.stage == Stage::Wait {
            break;
        }
        setup.next(SetupEvent::Done);
    }
    assert_eq!(
        told,
        [
            "x",
            "openstdiosocket: x",
            "stdio relay: x",
            "testmanagerd conn1: x",
            "testmanagerd conn2: x",
            "conn1 handshake: x",
            "conn2 handshake: x",
            "request channel conn1: x",
            "initiateSession: x",
            "request driver channel: x",
            "x",
            "launch test runner: x",
            "request channel conn2: x",
            "initiateControlSession: x",
            "authorizeTestSession: x",
            "x",
        ]
    );
    assert_eq!(setup.stage, Stage::Wait);
    let first = Setup::new(&plan, [7; 16]).next(SetupEvent::Done);
    assert!(matches!(first, SetupAction::ConnectOutput(3)));
    assert_ne!(Peer::Session, Peer::Control);
}

#[test]
fn a_run_passes_unless_a_case_failed() {
    let case = "_XCT_testCaseWithIdentifier:didFinishWithStatus:duration:";
    let mut state = RunState::new();
    let mut statuses: Vec<String> = Vec::new();
    for status in ["passed", "skipped"] {
        let id = AuxValue::Bytes(archive_string("id"));
        let status = AuxValue::Bytes(archive_string(status));
        statuses.extend(state.handle(&call(case, vec![id, status], false), b"").status);
    }
    assert_eq!(statuses, ["passed", "skipped"]);
    assert!(run_passed(&statuses));
    assert!(run_passed(&[]));
    statuses.push("failed".into());
    assert!(!run_passed(&statuses));
    assert!(state.handle(&call(case, vec![], false), b"").status.is_none());
    let other = "_XCT_testCaseDidFinishForTestClass:method:";
    assert!(state.handle(&call(other, vec![], false), b"").status.is_none());
}

#[test]
fn a_case_of_a_class_tells_its_status() {
    let case = "_XCT_testCaseDidFinishForTestClass:method:withStatus:duration:";
    let text = |s: &str| AuxValue::Bytes(archive_string(s));
    let mut state = RunState::new();
    let aux = vec![text("Class"), text("method"), text("failed")];
    let steps = state.handle(&call(case, aux, false), b"");
    assert_eq!(steps.status.as_deref(), Some("failed"));
    assert!(!run_passed(&[steps.status.unwrap()]));
    let aux = vec![text("Class"), text("failed")];
    assert!(state.handle(&call(case, aux, false), b"").status.is_none());
    assert_eq!(START_SELECTOR, "_IDE_startExecutingTestPlanWithProtocolVersion:");
    assert_eq!(start_args().len(), 1);
}
