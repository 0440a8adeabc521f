//! The launch of a test runner through the application service.

use vstd::prelude::*;
use crate::bytes::copy_bytes;
use crate::entries::Entries;
use crate::proplist::format::{plist_binary, to_binary};
use crate::proplist::{no_entries, Dict, Plist, Tree};
use crate::text::{after_last, join2, last_part, own};
use crate::tunnel::Error;
use crate::xpc::{Dictionary, Model, Value};

verus! {

/// Entries with more entries put on top, one after the other.
pub open spec fn merged(base: Seq<(Seq<char>, Model)>, more: Seq<(Seq<char>, Model)>) -> Seq<
    (Seq<char>, Model),
>
    decreases more.len(),
{
    if more.len() == 0 {
        base
    } else {
        merged(base, more.drop_last()).with(more.last().0, more.last().1)
    }
}

/// No entries.
pub open spec fn nothing() -> Seq<(Seq<char>, Model)> {
    Seq::empty()
}

/// Entries with one more text, unless that is empty.
pub open spec fn with_text(d: Seq<(Seq<char>, Model)>, key: Seq<char>, text: Seq<char>) -> Seq<
    (Seq<char>, Model),
> {
    if text.len() == 0 {
        d
    } else {
        d.with(key, Model::String(text))
    }
}

/// The variables of a list, as entries.
pub open spec fn variable_entries(vars: Seq<(String, String)>) -> Seq<(Seq<char>, Model)> {
    vars.map_values(|v: (String, String)| (v.0@, Model::String(v.1@)))
}

fn put_text(d: &mut Dictionary, key: &str, text: &str)
    ensures
        final(d)@ == with_text(old(d)@, key@, text@),
{
    if !text.is_empty() {
        d.put_str(key, text);
    }
}

/// The bundle path that the runner is told: the full path for UI tests, else the
/// name under `PlugIns`.
pub open spec fn bundle_variable(path: Seq<char>, initialize_for_ui: bool) -> Seq<char> {
    if initialize_for_ui {
        path
    } else {
        "PlugIns/"@ + after_last(path, '/')
    }
}

/// The environment of a test runner.
pub open spec fn runner_environment(
    session_id: Seq<char>,
    test_bundle_path: Seq<char>,
    extra: Seq<(Seq<char>, Model)>,
    is_xctest: bool,
    initialize_for_ui: bool,
) -> Seq<(Seq<char>, Model)> {
    let e0 = if is_xctest {
        with_text(
            nothing(),
            "DYLD_INSERT_LIBRARIES"@,
            "/System/Developer/usr/lib/libXCTestBundleInject.dylib"@,
        )
    } else {
        nothing()
    };
    let e1 = if initialize_for_ui {
        with_text(
            with_text(e0, "DYLD_FRAMEWORK_PATH"@, "/System/Developer/Library/Frameworks"@),
            "DYLD_LIBRARY_PATH"@,
            "/System/Developer/usr/lib"@,
        )
    } else {
        e0
    };
    let e2 = with_text(e1, "NSUnbufferedIO"@, "YES"@);
    let e3 = with_text(e2, "OS_ACTIVITY_DT_MODE"@, "YES"@);
    let e4 = with_text(e3, "SQLITE_ENABLE_THREAD_ASSERTIONS"@, "1"@);
    let e5 = with_text(
        e4,
        "XCTestBundlePath"@,
        bundle_variable(test_bundle_path, initialize_for_ui),
    );
    let e6 = with_text(e5, "XCTestManagerVariant"@, "DDI"@);
    let e7 = with_text(e6, "XCTestSessionIdentifier"@, session_id);
    merged(e7, extra)
}

/// Builds the environment of a test runner. Libraries are injected into unit
/// tests only, and search paths are set for UI tests only: without a host
/// application they would send the runner looking for one.
pub fn build_environment(
    session_id: &str,
    test_bundle_path: &str,
    extra_env: &[(String, String)],
    is_xctest: bool,
    initialize_for_ui: bool,
) -> (env: Dictionary)
    ensures
        env@ == runner_environment(
            session_id@,
            test_bundle_path@,
            variable_entries(extra_env@),
            is_xctest,
            initialize_for_ui,
        ),
{
    let mut env: Dictionary = Dictionary::new();
    if is_xctest {
        put_text(
            &mut env,
            "DYLD_INSERT_LIBRARIES",
            "/System/Developer/usr/lib/libXCTestBundleInject.dylib",
        );
    }
    if initialize_for_ui {
        put_text(&mut env, "DYLD_FRAMEWORK_PATH", "/System/Developer/Library/Frameworks");
        put_text(&mut env, "DYLD_LIBRARY_PATH", "/System/Developer/usr/lib");
    }
    put_text(&mut env, "NSUnbufferedIO", "YES");
    put_text(&mut env, "OS_ACTIVITY_DT_MODE", "YES");
    put_text(&mut env, "SQLITE_ENABLE_THREAD_ASSERTIONS", "1");
    let path: String = if initialize_for_ui {
        own(test_bundle_path)
    } else {
        join2("PlugIns/", last_part(test_bundle_path, '/').as_str())
    };
    put_text(&mut env, "XCTestBundlePath", path.as_str());
    put_text(&mut env, "XCTestManagerVariant", "DDI");
    put_text(&mut env, "XCTestSessionIdentifier", session_id);
    let ghost base = env@;
    let ghost extra = variable_entries(extra_env@);
    let mut i: usize = 0;
    assert(merged(base, extra.take(0)) =~= base);
    while i < extra_env.len()
        invariant
            i <= extra_env@.len(),
            extra == variable_entries(extra_env@),
            env@ == merged(base, extra.take(i as int)),
        decreases extra_env@.len() - i,
    {
        env.put_str(extra_env[i].0.as_str(), extra_env[i].1.as_str());
        assert(extra.take(i + 1).drop_last() =~= extra.take(i as int));
        assert(extra.take(i + 1).last() == extra[i as int]);
        i += 1;
    }
    assert(extra.take(i as int) =~= extra);
    env
}

/// The launch options of a test runner: a UI test runner starts suspended and is
/// activated.
pub open spec fn launch_options(is_xctest: bool, initialize_for_ui: bool) -> Seq<
    (Seq<char>, Model),
> {
    if initialize_for_ui && !is_xctest {
        nothing().with("ActivateSuspended"@, Model::Uint64(1)).with(
            "StartSuspendedKey"@,
            Model::Uint64(0),
        ).with("__ActivateSuspended"@, Model::Uint64(1))
    } else {
        nothing()
    }
}

/// The launch options of a test runner.
pub fn build_options(is_xctest: bool, initialize_for_ui: bool) -> (opts: Dictionary)
    ensures
        opts@ == launch_options(is_xctest, initialize_for_ui),
{
    let mut opts: Dictionary = Dictionary::new();
    if initialize_for_ui && !is_xctest {
        opts.put("ActivateSuspended", Value::Uint64(1));
        opts.put("StartSuspendedKey", Value::Uint64(0));
        opts.put("__ActivateSuspended", Value::Uint64(1));
    }
    opts
}

/// The input of a launch.
pub open spec fn launch_input(
    bundle_id: Seq<char>,
    env: Seq<(Seq<char>, Model)>,
    opts: Seq<(Seq<char>, Model)>,
    platform_opts: Seq<u8>,
    stdio_uuid: Seq<u8>,
) -> Model {
    let options = merged(
        nothing().with("arguments"@, Model::Array(Seq::empty())).with(
            "environmentVariables"@,
            Model::Dictionary(env),
        ).with("platformSpecificOptions"@, Model::Data(platform_opts)).with(
            "standardIOUsesPseudoterminals"@,
            Model::Bool(true),
        ).with("startStopped"@, Model::Bool(false)).with(
            "terminateExisting"@,
            Model::Bool(true),
        ).with(
            "user"@,
            Model::Dictionary(nothing().with("active"@, Model::Bool(true))),
        ).with("workingDirectory"@, Model::Null),
        opts,
    );
    Model::Dictionary(
        nothing().with(
            "applicationSpecifier"@,
            Model::Dictionary(
                nothing().with(
                    "bundleIdentifier"@,
                    Model::Dictionary(nothing().with("_0"@, Model::String(bundle_id))),
                ),
            ),
        ).with("options"@, Model::Dictionary(options)).with(
            "standardIOIdentifiers"@,
            Model::Dictionary(
                nothing().with("standardInput"@, Model::Uuid(stdio_uuid)).with(
                    "standardOutput"@,
                    Model::Uuid(stdio_uuid),
                ).with("standardError"@, Model::Uuid(stdio_uuid)),
            ),
        ),
    )
}

/// Builds the input of a launch.
pub fn build_launch_input(
    bundle_id: &str,
    env: Dictionary,
    opts: &Dictionary,
    platform_opts: &[u8],
    stdio_uuid: &[u8; 16],
) -> (input: Value)
    ensures
        input@ == launch_input(bundle_id@, env@, opts@, platform_opts@, stdio_uuid@),
{
    let mut id: Dictionary = Dictionary::new();
    id.put_str("_0", bundle_id);
    let mut spec: Dictionary = Dictionary::new();
    spec.put("bundleIdentifier", Value::Dictionary(id));
    let mut user: Dictionary = Dictionary::new();
    user.put("active", Value::Bool(true));
    let mut o: Dictionary = Dictionary::new();
    let none: Vec<Value> = Vec::new();
    let arguments = Value::Array(none);
    assert(arguments@->Array_0 =~= Seq::<Model>::empty());
    o.put("arguments", arguments);
    o.put("environmentVariables", Value::Dictionary(env));
    o.put("platformSpecificOptions", Value::Data(copy_bytes(platform_opts)));
    o.put("standardIOUsesPseudoterminals", Value::Bool(true));
    o.put("startStopped", Value::Bool(false));
    o.put("terminateExisting", Value::Bool(true));
    o.put("user", Value::Dictionary(user));
    o.put("workingDirectory", Value::Null);
    put_all(&mut o, opts);
    let mut stdio: Dictionary = Dictionary::new();
    stdio.put("standardInput", Value::Uuid(*stdio_uuid));
    stdio.put("standardOutput", Value::Uuid(*stdio_uuid));
    stdio.put("standardError", Value::Uuid(*stdio_uuid));
    let mut d: Dictionary = Dictionary::new();
    d.put("applicationSpecifier", Value::Dictionary(spec));
    d.put("options", Value::Dictionary(o));
    d.put("standardIOIdentifiers", Value::Dictionary(stdio));
    Value::Dictionary(d)
}

fn put_all(d: &mut Dictionary, more: &Dictionary)
    ensures
        final(d)@ == merged(old(d)@, more@),
{
    let n: usize = more.len();
    let mut i: usize = 0;
    assert(merged(d@, more@.take(0)) =~= d@);
    while i < n
        invariant
            n == more@.len(),
            i <= n,
            d@ == merged(old(d)@, more@.take(i as int)),
        decreases n - i,
    {
        d.put(more.key_at(i), more.value_at(i).dup());
        assert(more@.take(i + 1).drop_last() =~= more@.take(i as int));
        assert(more@.take(i + 1).last() == more@[i as int]);
        i += 1;
    }
    assert(more@.take(i as int) =~= more@);
}

/// The version that a request states for its sender.
pub open spec fn sender_version() -> Model {
    Model::Dictionary(
        nothing().with("stringValue"@, Model::String("348.1"@)).with(
            "originalComponentsCount"@,
            Model::Int64(2),
        ).with(
            "components"@,
            Model::Array(
                seq![
                    Model::Uint64(348),
                    Model::Uint64(1),
                    Model::Uint64(0),
                    Model::Uint64(0),
                    Model::Uint64(0),
                ],
            ),
        ),
    )
}

/// A request to a device feature.
pub open spec fn coredevice_request(
    device_id: Seq<char>,
    feature: Seq<char>,
    invocation_id: Seq<char>,
    input: Option<Model>,
) -> Model {
    Model::Dictionary(
        nothing().with("CoreDevice.CoreDeviceDDIProtocolVersion"@, Model::Int64(0)).with(
            "CoreDevice.action"@,
            Model::Dictionary(nothing()),
        ).with("CoreDevice.coreDeviceVersion"@, sender_version()).with(
            "CoreDevice.deviceIdentifier"@,
            Model::String(device_id),
        ).with("CoreDevice.featureIdentifier"@, Model::String(feature)).with(
            "CoreDevice.invocationIdentifier"@,
            Model::String(invocation_id),
        ).with(
            "CoreDevice.input"@,
            match input {
                Some(v) => v,
                None => Model::Null,
            },
        ),
    )
}

fn version_value() -> (v: Value)
    ensures
        v@ == sender_version(),
{
    let parts: Vec<Value> = vec![
        uint(348),
        uint(1),
        uint(0),
        uint(0),
        uint(0),
    ];
    let components = Value::Array(parts);
    assert(components@->Array_0 =~= seq![
        Model::Uint64(348),
        Model::Uint64(1),
        Model::Uint64(0),
        Model::Uint64(0),
        Model::Uint64(0),
    ]);
    let mut d: Dictionary = Dictionary::new();
    d.put_str("stringValue", "348.1");
    d.put("originalComponentsCount", Value::Int64(2));
    d.put("components", components);
    Value::Dictionary(d)
}

fn uint(n: u64) -> (v: Value)
    ensures
        v@ == Model::Uint64(n),
{
    Value::Uint64(n)
}

/// Builds a request to a device feature.
pub fn build_coredevice_request(
    device_id: &str,
    feature: &str,
    invocation_id: &str,
    input: Option<Value>,
) -> (req: Value)
    ensures
        req@ == coredevice_request(
            device_id@,
            feature@,
            invocation_id@,
            match input {
                Some(v) => Some(v@),
                None => None,
            },
        ),
{
    let mut d: Dictionary = Dictionary::new();
    d.put("CoreDevice.CoreDeviceDDIProtocolVersion", Value::Int64(0));
    d.put("CoreDevice.action", Value::Dictionary(Dictionary::new()));
    d.put("CoreDevice.coreDeviceVersion", version_value());
    d.put_str("CoreDevice.deviceIdentifier", device_id);
    d.put_str("CoreDevice.featureIdentifier", feature);
    d.put_str("CoreDevice.invocationIdentifier", invocation_id);
    match input {
        Some(v) => d.put("CoreDevice.input", v),
        None => d.put("CoreDevice.input", Value::Null),
    }
    Value::Dictionary(d)
}

/// What the launch of a test runner is made of.
pub struct LaunchArgs<'a> {
    pub device_id: &'a str,
    pub invocation_id: &'a str,
    pub bundle_id: &'a str,
    pub session_id: &'a str,
    pub test_bundle_path: &'a str,
    pub extra_env: &'a [(String, String)],
    pub is_xctest: bool,
    pub initialize_for_ui: bool,
    pub stdio_uuid: &'a [u8; 16],
}

/// The request that launches a test runner.
pub open spec fn launch_request(args: LaunchArgs) -> Model {
    coredevice_request(
        args.device_id@,
        "com.apple.coredevice.feature.launchapplication"@,
        args.invocation_id@,
        Some(
            launch_input(
                args.bundle_id@,
                runner_environment(
                    args.session_id@,
                    args.test_bundle_path@,
                    variable_entries(args.extra_env@),
                    args.is_xctest,
                    args.initialize_for_ui,
                ),
                launch_options(args.is_xctest, args.initialize_for_ui),
                plist_binary(Tree::Dictionary(no_entries())),
                args.stdio_uuid@,
            ),
        ),
    )
}

/// Builds the request that launches a test runner.
pub fn build_launch_request(args: &LaunchArgs) -> (req: Value)
    ensures
        req@ == launch_request(*args),
{
    let env: Dictionary = build_environment(
        args.session_id,
        args.test_bundle_path,
        args.extra_env,
        args.is_xctest,
        args.initialize_for_ui,
    );
    let opts: Dictionary = build_options(args.is_xctest, args.initialize_for_ui);
    let platform: Vec<u8> = to_binary(&Plist::Dictionary(Dict::new()));
    let input: Value = build_launch_input(
        args.bundle_id,
        env,
        &opts,
        platform.as_slice(),
        args.stdio_uuid,
    );
    build_coredevice_request(
        args.device_id,
        "com.apple.coredevice.feature.launchapplication",
        args.invocation_id,
        Some(input),
    )
}

/// The process identifier that a reply states.
pub open spec fn reply_pid(reply: Model) -> Option<i64> {
    match reply.at("CoreDevice.output"@) {
        Some(output) => match output.at("processToken"@) {
            Some(token) => match token.at("processIdentifier"@) {
                Some(Model::Int64(pid)) => Some(pid),
                _ => None,
            },
            None => None,
        },
        None => None,
    }
}

/// Takes the process identifier out of a reply. `shown` is how the reply is shown
/// in the error.
pub fn launched_pid(reply: &Value, shown: &str) -> (pid: Result<i64, Error>)
    ensures
        match pid {
            Ok(pid) => reply_pid(reply@) == Some(pid),
            Err(Error::Protocol(text)) => reply_pid(reply@) is None && text@
                == "no PID in appservice reply: "@ + shown@,
        },
{
    if let Some(output) = reply.at("CoreDevice.output") {
        if let Some(token) = output.at("processToken") {
            if let Some(Value::Int64(pid)) = token.at("processIdentifier") {
                return Ok(*pid);
            }
        }
    }
    Err(Error::Protocol(join2("no PID in appservice reply: ", shown)))
}

/// Entries that are put on top go before those below, and the others stay.
pub proof fn lemma_merged(
    base: Seq<(Seq<char>, Model)>,
    more: Seq<(Seq<char>, Model)>,
    key: Seq<char>,
)
    ensures
        merged(base, more).lookup(key) == match more.lookup(key) {
            Some(v) => Some(v),
            None => base.lookup(key),
        },
    decreases more.len(),
{
    broadcast use crate::entries::lemma_lookup_with;

    if more.len() > 0 {
        lemma_merged(base, more.drop_last(), key);
    }
}

broadcast proof fn lemma_with_text(
    d: Seq<(Seq<char>, Model)>,
    key: Seq<char>,
    text: Seq<char>,
    k: Seq<char>,
)
    ensures
        (#[trigger] with_text(d, key, text).lookup(k)) == if k == key && text.len() > 0 {
            Some(Model::String(text))
        } else {
            d.lookup(k)
        },
{
    broadcast use crate::entries::lemma_lookup_with;

}

/// A text as a value.
pub open spec fn says(text: Seq<char>) -> Option<Model> {
    Some(Model::String(text))
}

/// The variables of a runner, unless others of the same name are given: libraries are
/// injected into unit tests, search paths are set for UI tests, and every runner is told
/// its bundle and its session.
#[verifier::spinoff_prover]
#[verifier::rlimit(60)]
pub proof fn lemma_environment(
    session_id: Seq<char>,
    path: Seq<char>,
    extra: Seq<(Seq<char>, Model)>,
    is_xctest: bool,
    ui: bool,
    key: Seq<char>,
)
    ensures
        ({
            let env = runner_environment(session_id, path, extra, is_xctest, ui);
            &&& extra.lookup(key) is Some ==> env.lookup(key) == extra.lookup(key)
            &&& extra.lookup(key) is None ==> env.lookup(key) == if key
                == "DYLD_INSERT_LIBRARIES"@ && is_xctest {
                says("/System/Developer/usr/lib/libXCTestBundleInject.dylib"@)
            } else if key == "DYLD_FRAMEWORK_PATH"@ && ui {
                says("/System/Developer/Library/Frameworks"@)
            } else if key == "DYLD_LIBRARY_PATH"@ && ui {
                says("/System/Developer/usr/lib"@)
            } else if key == "NSUnbufferedIO"@ {
                says("YES"@)
            } else if key == "OS_ACTIVITY_DT_MODE"@ {
                says("YES"@)
            } else if key == "SQLITE_ENABLE_THREAD_ASSERTIONS"@ {
                says("1"@)
            } else if key == "XCTestBundlePath"@ && (!ui || path.len() > 0) {
                says(
                    if ui {
                        path
                    } else {
                        "PlugIns/"@ + after_last(path, '/')
                    },
                )
            } else if key == "XCTestManagerVariant"@ {
                says("DDI"@)
            } else if key == "XCTestSessionIdentifier"@ && session_id.len() > 0 {
                says(session_id)
            } else {
                None
            }
        }),
{
    broadcast use lemma_with_text;

    reveal_strlit("DYLD_INSERT_LIBRARIES");
    reveal_strlit("DYLD_FRAMEWORK_PATH");
    reveal_strlit("DYLD_LIBRARY_PATH");
    reveal_strlit("NSUnbufferedIO");
    reveal_strlit("OS_ACTIVITY_DT_MODE");
    reveal_strlit("SQLITE_ENABLE_THREAD_ASSERTIONS");
    reveal_strlit("XCTestBundlePath");
    reveal_strlit("XCTestManagerVariant");
    reveal_strlit("XCTestSessionIdentifier");
    assert("DYLD_INSERT_LIBRARIES"@.len() == 21);
    assert("DYLD_FRAMEWORK_PATH"@.len() == 19);
    assert("DYLD_LIBRARY_PATH"@.len() == 17);
    assert("NSUnbufferedIO"@.len() == 14);
    assert("OS_ACTIVITY_DT_MODE"@.len() == 19);
    assert("SQLITE_ENABLE_THREAD_ASSERTIONS"@.len() == 31);
    assert("XCTestBundlePath"@.len() == 16);
    assert("XCTestManagerVariant"@.len() == 20);
    assert("XCTestSessionIdentifier"@.len() == 23);
    assert("DYLD_FRAMEWORK_PATH"@[0] == 'D');
    assert("OS_ACTIVITY_DT_MODE"@[0] == 'O');
    reveal_strlit("/System/Developer/usr/lib/libXCTestBundleInject.dylib");
    assert("/System/Developer/usr/lib/libXCTestBundleInject.dylib"@.len() == 53);
    reveal_strlit("/System/Developer/Library/Frameworks");
    assert("/System/Developer/Library/Frameworks"@.len() == 36);
    reveal_strlit("/System/Developer/usr/lib");
    assert("/System/Developer/usr/lib"@.len() == 25);
    reveal_strlit("YES");
    assert("YES"@.len() == 3);
    reveal_strlit("1");
    assert("1"@.len() == 1);
    reveal_strlit("DDI");
    assert("DDI"@.len() == 3);
    reveal_strlit("PlugIns/");
    assert("PlugIns/"@.len() == 8);
    let e0 = if is_xctest {
        with_text(
            nothing(),
            "DYLD_INSERT_LIBRARIES"@,
            "/System/Developer/usr/lib/libXCTestBundleInject.dylib"@,
        )
    } else {
        nothing()
    };
    let e1 = if ui {
        with_text(
            with_text(e0, "DYLD_FRAMEWORK_PATH"@, "/System/Developer/Library/Frameworks"@),
            "DYLD_LIBRARY_PATH"@,
            "/System/Developer/usr/lib"@,
        )
    } else {
        e0
    };
    let e2 = with_text(e1, "NSUnbufferedIO"@, "YES"@);
    let e3 = with_text(e2, "OS_ACTIVITY_DT_MODE"@, "YES"@);
    let e4 = with_text(e3, "SQLITE_ENABLE_THREAD_ASSERTIONS"@, "1"@);
    let e5 = with_text(e4, "XCTestBundlePath"@, bundle_variable(path, ui));
    let e6 = with_text(e5, "XCTestManagerVariant"@, "DDI"@);
    let e7 = with_text(e6, "XCTestSessionIdentifier"@, session_id);
    lemma_merged(e7, extra, key);
}

/// The variables that are given, each under its name; of several under one name the last
/// counts.
pub proof fn lemma_variables(vars: Seq<(String, String)>)
    ensures
        variable_entries(vars).len() == vars.len(),
        forall|i: int|
            0 <= i < vars.len() ==> (#[trigger] variable_entries(vars)[i]) == (
                vars[i].0@,
                Model::String(vars[i].1@),
            ),
{
}

/// A UI test runner starts suspended and is activated; there are no options for others.
pub proof fn lemma_options(is_xctest: bool, ui: bool)
    ensures
        ui && !is_xctest ==> {
            let o = launch_options(is_xctest, ui);
            &&& o.len() == 3
            &&& o.lookup("ActivateSuspended"@) == Some(Model::Uint64(1))
            &&& o.lookup("StartSuspendedKey"@) == Some(Model::Uint64(0))
            &&& o.lookup("__ActivateSuspended"@) == Some(Model::Uint64(1))
        },
        is_xctest || !ui ==> launch_options(is_xctest, ui).len() == 0,
{
    broadcast use crate::entries::lemma_lookup_with;

    reveal_strlit("ActivateSuspended");
    reveal_strlit("StartSuspendedKey");
    reveal_strlit("__ActivateSuspended");
    assert("ActivateSuspended"@.len() == 17);
    assert("StartSuspendedKey"@.len() == 17);
    assert("__ActivateSuspended"@.len() == 19);
    assert("ActivateSuspended"@[0] == 'A');
    assert("StartSuspendedKey"@[0] == 'S');
}

/// What a launch is told, by its keys: the application, the environment, the platform
/// options, and one identifier for all of its input and output; it does not start stopped,
/// and ends what runs already. Further options go on top.
#[verifier::spinoff_prover]
#[verifier::rlimit(60)]
pub proof fn lemma_launch_tells(
    bundle_id: Seq<char>,
    env: Seq<(Seq<char>, Model)>,
    opts: Seq<(Seq<char>, Model)>,
    platform_opts: Seq<u8>,
    stdio_uuid: Seq<u8>,
    key: Seq<char>,
)
    ensures
        launch_input(bundle_id, env, opts, platform_opts, stdio_uuid) matches Model::Dictionary(d) && {
            &&& d.lookup("applicationSpecifier"@) matches Some(Model::Dictionary(app))
            &&& app.lookup("bundleIdentifier"@) matches Some(Model::Dictionary(id))
            &&& id.lookup("_0"@) == Some(Model::String(bundle_id))
            &&& d.lookup("standardIOIdentifiers"@) matches Some(Model::Dictionary(io))
            &&& io.lookup("standardInput"@) == Some(Model::Uuid(stdio_uuid))
            &&& io.lookup("standardOutput"@) == Some(Model::Uuid(stdio_uuid))
            &&& io.lookup("standardError"@) == Some(Model::Uuid(stdio_uuid))
            &&& d.lookup("options"@) matches Some(Model::Dictionary(o))
            &&& opts.lookup(key) is Some ==> o.lookup(key) == opts.lookup(key)
            &&& opts.lookup(key) is None ==> {
                &&& key == "arguments"@ ==> (o.lookup(key) matches Some(Model::Array(a)) && a.len()
                    == 0)
                &&& key == "environmentVariables"@ ==> o.lookup(key) == Some(Model::Dictionary(env))
                &&& key == "platformSpecificOptions"@ ==> o.lookup(key) == Some(
                    Model::Data(platform_opts),
                )
                &&& key == "standardIOUsesPseudoterminals"@ ==> o.lookup(key) == Some(
                    Model::Bool(true),
                )
                &&& key == "startStopped"@ ==> o.lookup(key) == Some(Model::Bool(false))
                &&& key == "terminateExisting"@ ==> o.lookup(key) == Some(Model::Bool(true))
                &&& key == "workingDirectory"@ ==> o.lookup(key) == Some(Model::Null)
                &&& key == "user"@ ==> (o.lookup(key) matches Some(Model::Dictionary(u)) && u.lookup(
                    "active"@,
                ) == Some(Model::Bool(true)))
            }
        },
{
    broadcast use crate::entries::lemma_lookup_with;

    reveal_strlit("applicationSpecifier");
    reveal_strlit("options");
    reveal_strlit("standardIOIdentifiers");
    assert("applicationSpecifier"@.len() == 20);
    assert("options"@.len() == 7);
    assert("standardIOIdentifiers"@.len() == 21);
    reveal_strlit("standardInput");
    reveal_strlit("standardOutput");
    reveal_strlit("standardError");
    assert("standardInput"@.len() == 13);
    assert("standardOutput"@.len() == 14);
    assert("standardError"@.len() == 13);
    assert("standardInput"@[8] == 'I');
    assert("standardError"@[8] == 'E');
    reveal_strlit("arguments");
    reveal_strlit("environmentVariables");
    reveal_strlit("platformSpecificOptions");
    reveal_strlit("standardIOUsesPseudoterminals");
    reveal_strlit("startStopped");
    reveal_strlit("terminateExisting");
    reveal_strlit("user");
    reveal_strlit("workingDirectory");
    assert("arguments"@.len() == 9);
    assert("environmentVariables"@.len() == 20);
    assert("platformSpecificOptions"@.len() == 23);
    assert("standardIOUsesPseudoterminals"@.len() == 29);
    assert("startStopped"@.len() == 12);
    assert("terminateExisting"@.len() == 17);
    assert("user"@.len() == 4);
    assert("workingDirectory"@.len() == 16);
    let base = nothing().with("arguments"@, Model::Array(Seq::empty())).with(
        "environmentVariables"@,
        Model::Dictionary(env),
    ).with("platformSpecificOptions"@, Model::Data(platform_opts)).with(
        "standardIOUsesPseudoterminals"@,
        Model::Bool(true),
    ).with("startStopped"@, Model::Bool(false)).with("terminateExisting"@, Model::Bool(true)).with(
        "user"@,
        Model::Dictionary(nothing().with("active"@, Model::Bool(true))),
    ).with("workingDirectory"@, Model::Null);
    lemma_merged(base, opts, key);
}

/// The version of the sender is 348.1, in words and in its five components.
pub proof fn lemma_sender_version()
    ensures
        sender_version() matches Model::Dictionary(d) && {
            &&& d.lookup("stringValue"@) == Some(Model::String("348.1"@))
            &&& d.lookup("originalComponentsCount"@) == Some(Model::Int64(2))
            &&& d.lookup("components"@) matches Some(Model::Array(parts))
            &&& parts.len() == 5
            &&& parts[0] == Model::Uint64(348)
            &&& parts[1] == Model::Uint64(1)
            &&& forall|i: int| 2 <= i < 5 ==> #[trigger] parts[i] == Model::Uint64(0)
        },
{
    broadcast use crate::entries::lemma_lookup_with;

    reveal_strlit("stringValue");
    reveal_strlit("originalComponentsCount");
    reveal_strlit("components");
    assert("stringValue"@.len() == 11);
    assert("originalComponentsCount"@.len() == 23);
    assert("components"@.len() == 10);
}

/// A request to a feature names the device, the feature and the invocation, and carries the
/// input, or nothing in its place.
pub proof fn lemma_request_tells(device_id: Seq<char>, feature: Seq<char>, invocation_id: Seq<char>, input: Option<Model>)
    ensures
        coredevice_request(device_id, feature, invocation_id, input) matches Model::Dictionary(d) && {
            &&& d.lookup("CoreDevice.CoreDeviceDDIProtocolVersion"@) == Some(Model::Int64(0))
            &&& d.lookup("CoreDevice.action"@) matches Some(Model::Dictionary(action))
            &&& action.len() == 0
            &&& d.lookup("CoreDevice.coreDeviceVersion"@) == Some(sender_version())
            &&& d.lookup("CoreDevice.deviceIdentifier"@) == Some(Model::String(device_id))
            &&& d.lookup("CoreDevice.featureIdentifier"@) == Some(Model::String(feature))
            &&& d.lookup("CoreDevice.invocationIdentifier"@) == Some(Model::String(invocation_id))
            &&& input matches Some(v) ==> d.lookup("CoreDevice.input"@) == Some(v)
            &&& input is None ==> d.lookup("CoreDevice.input"@) == Some(Model::Null)
        },
{
    broadcast use crate::entries::lemma_lookup_with;

    reveal_strlit("CoreDevice.CoreDeviceDDIProtocolVersion");
    reveal_strlit("CoreDevice.action");
    reveal_strlit("CoreDevice.coreDeviceVersion");
    reveal_strlit("CoreDevice.deviceIdentifier");
    reveal_strlit("CoreDevice.featureIdentifier");
    reveal_strlit("CoreDevice.invocationIdentifier");
    reveal_strlit("CoreDevice.input");
    assert("CoreDevice.CoreDeviceDDIProtocolVersion"@.len() == 39);
    assert("CoreDevice.action"@.len() == 17);
    assert("CoreDevice.coreDeviceVersion"@.len() == 28);
    assert("CoreDevice.deviceIdentifier"@.len() == 27);
    assert("CoreDevice.featureIdentifier"@.len() == 28);
    assert("CoreDevice.invocationIdentifier"@.len() == 31);
    assert("CoreDevice.input"@.len() == 16);
    assert("CoreDevice.coreDeviceVersion"@[11] == 'c');
    assert("CoreDevice.featureIdentifier"@[11] == 'f');
}

/// The request that launches a runner goes to the feature that launches applications, and
/// carries the launch of its bundle in its environment.
pub proof fn lemma_launch_request(args: LaunchArgs)
    ensures
        launch_request(args) matches Model::Dictionary(d) && {
            &&& d.lookup("CoreDevice.deviceIdentifier"@) == Some(Model::String(args.device_id@))
            &&& d.lookup("CoreDevice.invocationIdentifier"@) == Some(
                Model::String(args.invocation_id@),
            )
            &&& d.lookup("CoreDevice.featureIdentifier"@) == Some(
                Model::String("com.apple.coredevice.feature.launchapplication"@),
            )
            &&& d.lookup("CoreDevice.input"@) == Some(
                launch_input(
                    args.bundle_id@,
                    runner_environment(
                        args.session_id@,
                        args.test_bundle_path@,
                        variable_entries(args.extra_env@),
                        args.is_xctest,
                        args.initialize_for_ui,
                    ),
                    launch_options(args.is_xctest, args.initialize_for_ui),
                    plist_binary(Tree::Dictionary(no_entries())),
                    args.stdio_uuid@,
                ),
            )
        },
{
    lemma_request_tells(
        args.device_id@,
        "com.apple.coredevice.feature.launchapplication"@,
        args.invocation_id@,
        Some(
            launch_input(
                args.bundle_id@,
                runner_environment(
                    args.session_id@,
                    args.test_bundle_path@,
                    variable_entries(args.extra_env@),
                    args.is_xctest,
                    args.initialize_for_ui,
                ),
                launch_options(args.is_xctest, args.initialize_for_ui),
                plist_binary(Tree::Dictionary(no_entries())),
                args.stdio_uuid@,
            ),
        ),
    );
}

/// The process of a reply stands three levels down.
pub proof fn lemma_reply_pid(reply: Model)
    ensures
        match reply {
            Model::Dictionary(d) => match d.lookup("CoreDevice.output"@) {
                Some(Model::Dictionary(output)) => match output.lookup("processToken"@) {
                    Some(Model::Dictionary(token)) => match token.lookup("processIdentifier"@) {
                        Some(Model::Int64(pid)) => reply_pid(reply) == Some(pid),
                        _ => reply_pid(reply) is None,
                    },
                    _ => reply_pid(reply) is None,
                },
                _ => reply_pid(reply) is None,
            },
            _ => reply_pid(reply) is None,
        },
{
}

} // verus!
