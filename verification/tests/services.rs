//! The services of a device: what they are asked and what their replies mean.

use ios_rs::lockdown::services::transfer::{
    child_path, parent_dir, Download, DownloadAction, DownloadEvent, Upload, UploadAction,
    UploadEvent,
};
use ios_rs::lockdown::services::{
    activation, amfi, diagnostics, mcinstall, screenshot, springboard, wire, wireless, Orientation,
};
use ios_rs::lockdown::Error;
use ios_rs::proplist::format::from_bytes;
use ios_rs::proplist::{Dict, Plist};

fn dict(entries: Vec<(&str, Plist)>) -> Plist {
    let mut d = Dict::new();
    for (k, v) in entries {
        d.put(k, v);
    }
    Plist::dict(d)
}

fn lockdown(e: Error) -> String {
    match e {
        Error::Lockdown(t) => t,
        _ => panic!("another error"),
    }
}

fn afc(e: Error) -> String {
    match e {
        Error::Afc(t) => t,
        _ => panic!("another error"),
    }
}

#[test]
fn messages_stand_behind_their_length() {
    let bytes = wire::message(&amfi::developer_mode_request(true)).unwrap();
    let len = u32::from_be_bytes([bytes[0], bytes[1], bytes[2], bytes[3]]) as usize;
    assert_eq!(len + 4, bytes.len());
    assert!(bytes[4..].starts_with(b"<?xml"));
    let p = wire::body(&bytes[4..]).unwrap();
    assert_eq!(p.truth_at("EnableDeveloperMode"), Some(true));
    assert!(matches!(wire::body(b"bplist00"), Err(Error::Plist(_))));
}

#[test]
fn lengths_have_limits() {
    assert_eq!(amfi::reply_len(1_048_576).unwrap(), 1_048_576);
    assert_eq!(
        lockdown(amfi::reply_len(1_048_577).unwrap_err()),
        "amfi: bad response length 1048577"
    );
    assert_eq!(
        lockdown(activation::reply_len(0).unwrap_err()),
        "activation: bad response length 0"
    );
    assert_eq!(activation::reply_len(8_388_608).unwrap(), 8_388_608);
    assert_eq!(
        afc(diagnostics::reply_len(4_194_305).unwrap_err()),
        "diagnostics: implausible length 4194305"
    );
    assert_eq!(
        lockdown(mcinstall::reply_len(8_388_609).unwrap_err()),
        "MCInstall: bad response length 8388609"
    );
    assert_eq!(
        afc(screenshot::reply_len(33_554_433).unwrap_err()),
        "screenshot: implausible message length 33554433"
    );
    assert_eq!(
        lockdown(wireless::reply_len(0).unwrap_err()),
        "wireless: bad response length 0"
    );
}

#[test]
fn developer_mode() {
    let on = dict(vec![("DeveloperModeEnabled", Plist::truth(true))]);
    assert!(amfi::developer_mode_status(&on).unwrap());
    assert!(!amfi::developer_mode_status(&dict(vec![])).unwrap());
    let bad = dict(vec![("Error", Plist::text("locked"))]);
    assert_eq!(lockdown(amfi::developer_mode_status(&bad).unwrap_err()), "amfi status: locked");
    assert_eq!(lockdown(amfi::enable_developer_mode(&bad).unwrap_err()), "amfi enable: locked");
    let reboot = dict(vec![("RebootRequired", Plist::truth(true))]);
    assert!(amfi::enable_developer_mode(&reboot).unwrap());
}

#[test]
fn wireless_connections() {
    let set = wireless::set_wifi_request(true);
    assert_eq!(set.text_at("Request"), Some("EnableWifiConnections"));
    assert_eq!(set.truth_at("EnableWifi"), Some(true));
    assert_eq!(wireless::get_wifi_request().text_at("Request"), Some("GetWifiConnections"));
    let on = dict(vec![("EnableWifi", Plist::truth(true))]);
    assert!(wireless::wifi_enabled(&on).unwrap());
    assert!(wireless::wifi_set(&on).is_ok());
    let bad = dict(vec![("Error", Plist::text("no"))]);
    assert_eq!(
        lockdown(wireless::wifi_enabled(&bad).unwrap_err()),
        "wireless GetWifiConnections: no"
    );
    assert_eq!(
        lockdown(wireless::wifi_set(&bad).unwrap_err()),
        "wireless EnableWifiConnections: no"
    );
    assert_eq!(wireless::status_line(true), "wifi connections: enabled");
    assert_eq!(wireless::status_line(false), "wifi connections: disabled");
}

#[test]
fn activation_of_a_device() {
    assert_eq!(
        activation::session_info_request().text_at("Command"),
        Some("CreateTunnel1SessionInfoRequest")
    );
    let req = activation::activation_info_request(b"drm");
    assert_eq!(req.text_at("Command"), Some("CreateActivationInfoRequest"));
    assert_eq!(req.data_at("Value"), Some(&b"drm"[..]));
    assert_eq!(req.at("Options").unwrap().unsigned_at("BasebandWaitCount"), Some(90));
    let mut headers = Dict::new();
    headers.put_str("X", "y");
    let req = activation::handle_activation_request(b"resp", headers);
    assert_eq!(req.text_at("Command"), Some("HandleActivationInfoWithSessionRequest"));
    assert_eq!(req.at("ActivationResponseHeaders").unwrap().text_at("X"), Some("y"));
    assert_eq!(activation::deactivate_request().text_at("Request"), Some("Deactivate"));

    let value = dict(vec![("Value", dict(vec![("K", Plist::number(1))]))]);
    assert_eq!(
        activation::session_info(&value).unwrap().get("K").unwrap().as_signed_integer(),
        Some(1)
    );
    assert_eq!(activation::activation_info(&value).unwrap().len(), 1);
    assert_eq!(
        lockdown(activation::session_info(&dict(vec![])).unwrap_err()),
        "activation: no Value in session info response"
    );
    assert_eq!(
        lockdown(activation::activation_info(&dict(vec![])).unwrap_err()),
        "activation: no Value in activation info response"
    );
    assert!(activation::activation_handled(&value).is_ok());
    let bad = dict(vec![("Error", Plist::text("no"))]);
    assert_eq!(
        lockdown(activation::activation_handled(&bad).unwrap_err()),
        "handle activation: no"
    );
}

#[test]
fn power_is_controlled() {
    assert_eq!(diagnostics::request("Restart").text_at("Request"), Some("Restart"));
    let ok = dict(vec![("Status", Plist::text("Success"))]);
    assert!(diagnostics::obeyed("Restart", &ok).is_ok());
    assert!(diagnostics::obeyed("Restart", &dict(vec![])).is_ok());
    let bad = dict(vec![("Status", Plist::text("Fail\"ure"))]);
    assert_eq!(
        afc(diagnostics::obeyed("Sleep", &bad).unwrap_err()),
        "diagnostics Sleep: status \"Fail\\\"ure\""
    );
}

#[test]
fn the_battery_is_read() {
    let gauges = dict(vec![
        ("BatteryCurrentCapacity", Plist::number(80)),
        ("BatteryVoltage", Plist::number(-1)),
        ("CycleCount", Plist::text("many")),
        ("BatteryIsCharging", Plist::truth(true)),
    ]);
    let reply = dict(vec![("Diagnostics", dict(vec![("GasGauge", gauges)]))]);
    let diag = diagnostics::queried("GasGauge", &reply).unwrap();
    let info = diagnostics::battery(&diag).unwrap();
    assert_eq!(info.capacity_pct, 80);
    assert_eq!(info.voltage_mv, u64::MAX);
    assert_eq!(info.cycle_count, 0);
    assert!(info.is_charging && !info.fully_charged);
    assert_eq!(
        afc(diagnostics::battery(&Dict::new()).unwrap_err()),
        "diagnostics: no GasGauge in response"
    );
    assert_eq!(
        afc(diagnostics::queried("All", &dict(vec![])).unwrap_err()),
        "diagnostics All: no Diagnostics in response"
    );
    let bad = dict(vec![("Error", Plist::text("no"))]);
    assert_eq!(afc(diagnostics::queried("All", &bad).unwrap_err()), "diagnostics All: no");
}

#[test]
fn management_requests() {
    assert_eq!(mcinstall::request("Flush").text_at("RequestType"), Some("Flush"));
    let req = mcinstall::set_cloud_config_request(Dict::new());
    assert_eq!(req.text_at("RequestType"), Some("SetCloudConfiguration"));
    assert!(req.at("CloudConfiguration").unwrap().as_dictionary().is_some());
    let req = mcinstall::escalate_request(b"cert");
    assert_eq!(req.data_at("SupervisorCertificate"), Some(&b"cert"[..]));
    let req = mcinstall::escalate_response_request(b"signed");
    assert_eq!(req.text_at("RequestType"), Some("EscalateResponse"));
    assert_eq!(req.data_at("SignedRequest"), Some(&b"signed"[..]));
    assert_eq!(mcinstall::SKIP_SETUP_KEYS.len(), 66);
    assert_eq!(mcinstall::SKIP_SETUP_KEYS[65], "WiFi");
}

#[test]
fn management_replies() {
    let ok = dict(vec![("Status", Plist::text("Acknowledged"))]);
    assert!(mcinstall::acknowledged(&ok, "Flush").is_ok());
    assert!(mcinstall::acknowledged(&dict(vec![]), "Flush").is_ok());
    let bad = dict(vec![("Status", Plist::text("Busy"))]);
    assert_eq!(
        lockdown(mcinstall::acknowledged(&bad, "Flush").unwrap_err()),
        "MCInstall Flush: status \"Busy\""
    );
    let worse = dict(vec![("Status", Plist::text("Busy")), ("Error", Plist::text("later"))]);
    assert_eq!(
        lockdown(mcinstall::acknowledged(&worse, "Flush").unwrap_err()),
        "MCInstall Flush: status \"Busy\": later"
    );
    assert_eq!(
        lockdown(mcinstall::acknowledged(&Plist::number(1), "Flush").unwrap_err()),
        "MCInstall Flush: response not a dict"
    );
    assert!(mcinstall::cloud_config(&ok).is_ok());
    assert!(mcinstall::cloud_config(&Plist::number(1)).is_err());
    let challenge = dict(vec![("Challenge", Plist::bytes(b"abc"))]);
    assert_eq!(mcinstall::escalation_challenge(&challenge).unwrap(), b"abc");
    assert_eq!(
        lockdown(mcinstall::escalation_challenge(&ok).unwrap_err()),
        "MCInstall Escalate: no Challenge in response"
    );
    assert_eq!(
        lockdown(mcinstall::escalation_challenge(&bad).unwrap_err()),
        "MCInstall Escalate: status \"Busy\""
    );
}

#[test]
fn pictures_are_taken() {
    let offer = Plist::array(vec![
        Plist::text("DLMessageVersionExchange"),
        Plist::text("x"),
        Plist::array(vec![Plist::number(400)]),
    ]);
    let answer = screenshot::accept_version(&offer).unwrap();
    let items = answer.as_array().unwrap();
    assert_eq!(items[0].as_string(), Some("DLMessageVersionExchange"));
    assert_eq!(items[1].as_string(), Some("DLVersionsOk"));
    assert_eq!(items[2].as_signed_integer(), Some(400));
    let bare = screenshot::accept_version(&Plist::array(vec![])).unwrap();
    assert_eq!(bare.as_array().unwrap()[2].as_signed_integer(), Some(300));
    assert_eq!(
        afc(screenshot::accept_version(&Plist::number(1)).unwrap_err()),
        "screenshot: expected array for DLMessageVersionExchange"
    );

    let ready = Plist::array(vec![Plist::text("DLMessageDeviceReady")]);
    let req = screenshot::request_picture(&ready).unwrap();
    let items = req.as_array().unwrap();
    assert_eq!(items[1].text_at("MessageType"), Some("ScreenShotRequest"));
    let other = Plist::array(vec![Plist::text("Other")]);
    assert_eq!(
        afc(screenshot::request_picture(&other).unwrap_err()),
        "screenshot: expected DLMessageDeviceReady, got \"Other\""
    );

    let reply = Plist::array(vec![
        Plist::text("DLMessageProcessMessage"),
        dict(vec![
            ("MessageType", Plist::text("ScreenShotReply")),
            ("ScreenShotData", Plist::bytes(b"png")),
        ]),
    ]);
    assert_eq!(screenshot::picture(&reply).unwrap(), b"png");
    assert!(screenshot::picture(&other).is_err());
}

#[test]
fn orientations_have_names() {
    let all = [
        (Orientation::Portrait, "portrait", 1),
        (Orientation::PortraitUpsideDown, "portrait_upside_down", 2),
        (Orientation::LandscapeRight, "landscape_right", 3),
        (Orientation::LandscapeLeft, "landscape_left", 4),
    ];
    for (o, name, n) in all {
        assert_eq!(o.as_str(), name);
        assert_eq!(o.number(), n);
        assert_eq!(Orientation::parse(name), Some(o));
        assert_eq!(Orientation::parse(&n.to_string()), Some(o));
        assert_eq!(
            springboard::set_orientation_request(o).unsigned_at("value"),
            Some(n as u64)
        );
        let reply = dict(vec![("interfaceOrientation", Plist::number(n))]);
        assert_eq!(springboard::orientation(&reply).unwrap(), o);
    }
    assert_eq!(Orientation::parse("LANDSCAPE-Left"), Some(Orientation::LandscapeLeft));
    assert_eq!(Orientation::parse("sideways"), None);
    assert_eq!(Orientation::parse("\u{130}portrait"), None);
    let odd = dict(vec![("interfaceOrientation", Plist::number(-7))]);
    assert_eq!(
        lockdown(springboard::orientation(&odd).unwrap_err()),
        "unknown orientation value: -7"
    );
    assert_eq!(
        lockdown(springboard::orientation(&dict(vec![])).unwrap_err()),
        "no interfaceOrientation in response"
    );
}

#[test]
fn the_application_in_front() {
    assert_eq!(
        springboard::foreground_request().text_at("command"),
        Some("getFrontMostDisplayIdentifier")
    );
    assert_eq!(
        springboard::get_orientation_request().text_at("command"),
        Some("getInterfaceOrientation")
    );
    let reply = dict(vec![("displayIdentifier", Plist::text("com.apple.mobilesafari"))]);
    assert_eq!(springboard::foreground_app(&reply).unwrap(), "com.apple.mobilesafari");
    assert_eq!(
        lockdown(springboard::foreground_app(&dict(vec![])).unwrap_err()),
        "no displayIdentifier in response"
    );
}

#[test]
fn directories_of_paths() {
    assert_eq!(parent_dir("/a/b/c.txt"), Some("/a/b".to_string()));
    assert_eq!(parent_dir("c.txt"), None);
    assert_eq!(child_path("/a/b/", "c"), "/a/b/c");
    assert_eq!(child_path("/", "c"), "/c");
}

#[test]
fn an_upload_goes_in_chunks() {
    let len = 262_144 * 2 + 5;
    let mut u = Upload::new("/d/f".into(), len);
    assert!(matches!(u.next(UploadEvent::Begin), UploadAction::MakeDir(d) if d == "/d"));
    assert!(matches!(u.next(UploadEvent::Succeeded), UploadAction::Open));
    let mut action = u.next(UploadEvent::Opened(9));
    let mut sent = Vec::new();
    while let UploadAction::Write { handle, from, to } = action {
        assert_eq!(handle, 9);
        sent.push((from, to));
        action = u.next(UploadEvent::Succeeded);
    }
    assert_eq!(sent, [(0, 262_144), (262_144, 524_288), (524_288, 524_293)]);
    assert!(matches!(action, UploadAction::Close(9)));
    assert!(matches!(u.next(UploadEvent::Succeeded), UploadAction::Finish(Ok(()))));
}

#[test]
fn a_failed_upload_closes_the_file() {
    let mut u = Upload::new("f".into(), 10);
    assert!(matches!(u.next(UploadEvent::Begin), UploadAction::Open));
    assert!(matches!(
        u.next(UploadEvent::Opened(1)),
        UploadAction::Write { handle: 1, from: 0, to: 10 }
    ));
    let full = UploadEvent::Failed(Error::Afc("disk full".into()));
    assert!(matches!(u.next(full), UploadAction::Close(1)));
    match u.next(UploadEvent::Succeeded) {
        UploadAction::Finish(Err(e)) => assert_eq!(afc(e), "disk full"),
        _ => panic!("not finished"),
    }
}

#[test]
fn an_empty_upload_only_makes_the_file() {
    let mut u = Upload::new("f".into(), 0);
    u.next(UploadEvent::Begin);
    assert!(matches!(u.next(UploadEvent::Opened(1)), UploadAction::Close(1)));
}

#[test]
fn a_download_reads_to_the_end() {
    let mut d = Download::new();
    assert!(matches!(d.next(DownloadEvent::Begin), DownloadAction::Open));
    assert!(matches!(
        d.next(DownloadEvent::Opened(4)),
        DownloadAction::Read { handle: 4, size: 4_194_304 }
    ));
    assert!(matches!(
        d.next(DownloadEvent::Chunk(b"ab".to_vec())),
        DownloadAction::Read { handle: 4, .. }
    ));
    d.next(DownloadEvent::Chunk(b"c".to_vec()));
    assert!(matches!(d.next(DownloadEvent::Chunk(vec![])), DownloadAction::Close(4)));
    match d.next(DownloadEvent::Succeeded) {
        DownloadAction::Finish(Ok(data)) => assert_eq!(data, b"abc"),
        _ => panic!("not finished"),
    }
}

#[test]
fn a_failed_download_closes_the_file() {
    let mut d = Download::new();
    d.next(DownloadEvent::Begin);
    d.next(DownloadEvent::Opened(4));
    let lost = DownloadEvent::Failed(Error::Closed);
    assert!(matches!(d.next(lost), DownloadAction::Close(4)));
    assert!(matches!(
        d.next(DownloadEvent::Succeeded),
        DownloadAction::Finish(Err(Error::Closed))
    ));
}

#[test]
fn requests_are_property_lists() {
    let bytes = wire::message(&springboard::foreground_request()).unwrap();
    let p = from_bytes(&bytes[4..]).unwrap();
    assert_eq!(p.text_at("command"), Some("getFrontMostDisplayIdentifier"));
}
