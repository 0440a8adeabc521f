//! The daemon: where it listens, what it is asked, and what it answers.

use ios_rs::daemon::address::{listen_addr_display, parse_listen_addr, resolve_listen_addr};
use ios_rs::daemon::listing::{list_entries, list_lines, list_request, shutdown_request};
use ios_rs::daemon::metadata::{chip_number, find_device, lockdown_values};
use ios_rs::daemon::probe::{
    extract_identifier_from_reply, get_service_request, list_services_request,
};
use ios_rs::daemon::registry::watch_event_to_plist;
use ios_rs::daemon::requests::{
    after_checkin, after_connect, check_length, err_reply, list_reply, ok_reply, open_service,
    parse_request, raw_tunnel_reply, recv_plist, send_plist, ClientRequest, Step,
};
use ios_rs::daemon::{DeviceTunnel, ListenAddr, Registry, WatchEvent};
use ios_rs::lockdown::types::DeviceInfo;
use ios_rs::lockdown::Error as LockdownError;
use ios_rs::proplist::{Dict, Plist};
use ios_rs::rsd::{Catalog, PeerInfo, ServiceEntry};
use ios_rs::tunnel::device_session::{daemon_request, daemon_verdict};
use ios_rs::tunnel::Error;
use ios_rs::usbmux::{ConnectionType, Device};
use ios_rs::xpc::{Dictionary, Value};

fn tunnel(device_id: u32) -> DeviceTunnel {
    let mut services = Catalog::new();
    for (name, port) in [("com.apple.afc.shim.remote", 5001u16), ("com.apple.dt", 5002)] {
        services.add(
            name.into(),
            ServiceEntry { port, uses_remote_xpc: false, properties: Dictionary::new() },
        );
    }
    DeviceTunnel {
        services,
        device_id,
        peer_info: PeerInfo {
            udid: "U1".into(),
            product_type: "iPhone17,2".into(),
            os_version: "18.1".into(),
            build_version: "22B83".into(),
        },
        device_name: "Phone".into(),
        ecid: 0x8000_0000_0000_0001,
        peer_pairing_identifier: String::new(),
        lockdown_values: Dict::new(),
        server_addr: "fd00::1".into(),
        client_addr: "fd00::2".into(),
        server_rsd_port: 58783,
    }
}

fn device(device_id: u32, serial: &str) -> Device {
    Device {
        device_id,
        serial: serial.into(),
        connection_type: ConnectionType::Usb,
        product_id: 0,
        location_id: 0,
    }
}

fn request(entries: &[(&str, &str)]) -> Plist {
    let mut d = Dict::new();
    for (k, v) in entries {
        d.put_str(k, v);
    }
    Plist::dict(d)
}

#[test]
fn listen_addresses() {
    assert!(matches!(parse_listen_addr("unix:///tmp/x"), Ok(ListenAddr::Unix(p)) if p == "/tmp/x"));
    assert!(matches!(
        parse_listen_addr("tcp://127.0.0.1:80"),
        Ok(ListenAddr::Tcp(a)) if a == "127.0.0.1:80"
    ));
    assert_eq!(
        parse_listen_addr("/tmp/x").unwrap_err(),
        "listen address must start with unix:// or tcp://: /tmp/x"
    );
    let flag = resolve_listen_addr(Some("unix://a"), Some("unix://b")).unwrap();
    assert_eq!(listen_addr_display(&flag), "socket=a");
    let env = resolve_listen_addr(None, Some("tcp://b:1")).unwrap();
    assert_eq!(listen_addr_display(&env), "tcp=b:1");
    let usual = resolve_listen_addr(None, None).unwrap();
    assert_eq!(listen_addr_display(&usual), "socket=/tmp/ios-rsd.sock");
}

#[test]
fn tunnels_are_attached_once() {
    let mut r = Registry::new();
    match r.attach("U1", tunnel(7)) {
        Some(WatchEvent::Attached(d)) => {
            let p = watch_event_to_plist(WatchEvent::Attached(d));
            assert_eq!(p.text_at("Event"), Some("Attached"));
            assert_eq!(p.text_at("UDID"), Some("U1"));
            assert_eq!(p.text_at("ProductType"), Some("iPhone17,2"));
            assert_eq!(p.text_at("BuildVersion"), Some("22B83"));
            assert_eq!(p.at("ECID").unwrap().as_signed_integer(), Some(i64::MIN + 1));
            assert_eq!(p.unsigned_at("Services"), Some(2));
            let ports = p.at("ServicePorts").unwrap();
            assert_eq!(ports.unsigned_at("com.apple.dt"), Some(5002));
            assert!(p.at("RemotePairingIdentifier").is_none());
            assert_eq!(p.text_at("TunnelServerAddr"), Some("fd00::1"));
            assert_eq!(p.text_at("TunnelClientAddr"), Some("fd00::2"));
            assert_eq!(p.unsigned_at("TunnelRSDPort"), Some(58783));
        }
        _ => panic!("not attached"),
    }
    assert!(r.attach("U1", tunnel(8)).is_none());
    assert_eq!(r.get("U1").unwrap().device_id, 7);
    assert!(r.contains("U1"));
    assert!(!r.contains("u1"));
}

#[test]
fn a_device_that_goes_takes_its_tunnels() {
    let mut r = Registry::new();
    r.attach("A", tunnel(1));
    r.attach("B", tunnel(2));
    r.attach("C", tunnel(1));
    assert_eq!(r.detach(1), ["A", "C"]);
    assert!(!r.contains("A") && r.contains("B") && !r.contains("C"));
    assert!(r.detach(1).is_empty());
    let p = watch_event_to_plist(WatchEvent::Detached { udid: "A".into() });
    assert_eq!(p.text_at("Event"), Some("Detached"));
    assert_eq!(p.text_at("UDID"), Some("A"));
}

#[test]
fn the_build_is_what_lockdown_says() {
    let mut dt = tunnel(1);
    dt.lockdown_values.put_str("BuildVersion", "23B85");
    dt.peer_pairing_identifier = "ID".into();
    let mut r = Registry::new();
    r.attach("A", dt);
    let mut dt = tunnel(1);
    dt.lockdown_values.put_str("BuildVersion", "");
    r.attach("B", dt);
    let shown = r.show();
    assert_eq!(shown[0].text_at("BuildVersion"), Some("23B85"));
    assert_eq!(shown[0].text_at("RemotePairingIdentifier"), Some("ID"));
    assert_eq!(shown[1].text_at("BuildVersion"), Some("22B83"));
}

#[test]
fn requests_are_understood() {
    assert!(matches!(parse_request(&list_request()), Ok(ClientRequest::List)));
    assert!(matches!(parse_request(&shutdown_request()), Ok(ClientRequest::Shutdown)));
    assert!(matches!(
        parse_request(&request(&[("Request", "Watch")])),
        Ok(ClientRequest::Watch)
    ));
    assert!(matches!(
        parse_request(&request(&[("Request", "RawTunnel"), ("UDID", "U")])),
        Ok(ClientRequest::RawTunnel { udid }) if udid == "U"
    ));
    assert!(matches!(
        parse_request(&request(&[("Request", "Other"), ("UDID", "U"), ("Service", "S")])),
        Ok(ClientRequest::Open { udid, service }) if udid == "U" && service == "S"
    ));
    let sent = daemon_request("U", "S").unwrap();
    let p = recv_plist(&sent[4..]).unwrap();
    assert!(matches!(
        parse_request(&p),
        Ok(ClientRequest::Open { udid, service }) if udid == "U" && service == "S"
    ));
}

#[test]
fn requests_that_lack_something() {
    assert_eq!(parse_request(&Plist::text("x")).unwrap_err(), "request not a dict");
    assert_eq!(
        parse_request(&request(&[("Request", "RawTunnel")])).unwrap_err(),
        "RawTunnel: no UDID"
    );
    assert_eq!(parse_request(&request(&[("Service", "S")])).unwrap_err(), "no UDID");
    assert_eq!(parse_request(&request(&[("UDID", "U")])).unwrap_err(), "no Service");
}

#[test]
fn services_lead_to_ports() {
    let mut r = Registry::new();
    r.attach("U", tunnel(1));
    let cases: [(&str, u16, bool); 5] = [
        ("_rsd", 58783, false),
        ("_rawport:0", 58783, false),
        ("_rawport:1234", 1234, false),
        ("com.apple.dt", 5002, false),
        ("com.apple.afc.shim.remote", 5001, true),
    ];
    for (service, want, check) in cases {
        match open_service(&r, "U", service, Ok(())) {
            Step::Connect { addr, port, checkin } => {
                assert_eq!(addr, "fd00::1");
                assert_eq!((port, checkin), (want, check), "{service}");
            }
            _ => panic!("not connected"),
        }
    }
    assert!(matches!(
        open_service(&r, "U", "_rawport:99999", Ok(())),
        Step::Refuse(t) if t == "service '_rawport:99999' not in RSD catalog"
    ));
    assert!(matches!(
        open_service(&r, "V", "_rsd", Ok(())),
        Step::Fail(t) if t == "tunnel vanished"
    ));
    assert!(matches!(
        open_service(&r, "U", "_rsd", Err("no cable".into())),
        Step::Refuse(t) if t == "no cable"
    ));
}

#[test]
fn connections_are_checked_in_where_needed() {
    assert!(matches!(after_connect(false, Ok(())), Step::Proxy));
    assert!(matches!(after_connect(true, Ok(())), Step::CheckIn));
    assert!(matches!(after_connect(true, Err("x".into())), Step::Refuse(t) if t == "x"));
    assert!(matches!(after_checkin(Ok(())), Step::Proxy));
    assert!(matches!(
        after_checkin(Err("x".into())),
        Step::Refuse(t) if t == "RSDCheckin: x"
    ));
}

#[test]
fn verdicts_reach_the_client() {
    assert!(daemon_verdict(&ok_reply()).is_ok());
    let Error::Protocol(why) = daemon_verdict(&err_reply("no such device")).unwrap_err();
    assert_eq!(why, "daemon: no such device");
}

#[test]
fn raw_tunnels_are_described() {
    let p = raw_tunnel_reply("fd00::1", "fd00::2", 58783, 1280);
    assert_eq!(p.text_at("Status"), Some("Ok"));
    assert_eq!(p.text_at("ServerAddr"), Some("fd00::1"));
    assert_eq!(p.text_at("ClientAddr"), Some("fd00::2"));
    assert_eq!(p.unsigned_at("RSDPort"), Some(58783));
    assert_eq!(p.unsigned_at("MTU"), Some(1280));
}

#[test]
fn daemon_messages_have_lengths() {
    let bytes = send_plist(&ok_reply()).unwrap();
    let len = u32::from_be_bytes([bytes[0], bytes[1], bytes[2], bytes[3]]);
    assert_eq!(check_length(len).unwrap(), bytes.len() - 4);
    assert_eq!(recv_plist(&bytes[4..]).unwrap().text_at("Status"), Some("Ok"));
    assert!(recv_plist(b"bplist00").is_err());
    assert_eq!(check_length(0).unwrap_err(), "bad plist length 0");
    assert_eq!(check_length(1_048_576).unwrap_err(), "bad plist length 1048576");
    assert_eq!(check_length(1_048_575), Ok(1_048_575));
}

#[test]
fn tunnels_are_listed() {
    let mut r = Registry::new();
    assert_eq!(list_lines(&list_reply(&r)).unwrap(), ["no active tunnels"]);
    assert!(list_entries(&list_reply(&r)).unwrap().is_empty());
    r.attach("U1", tunnel(1));
    let reply = list_reply(&r);
    assert_eq!(
        list_lines(&reply).unwrap(),
        ["U1  Phone  iPhone17,2  iOS 18.1  (2 services)"]
    );
    let entries = list_entries(&reply).unwrap();
    assert_eq!(entries.len(), 1);
    assert_eq!(entries[0].udid, "U1");
    assert_eq!(entries[0].device_name, "Phone");
    assert_eq!(entries[0].ecid, 0);
    assert_eq!(entries[0].services, 2);
}

#[test]
fn listings_with_gaps() {
    let mut d = Dict::new();
    d.put_str("Status", "Ok");
    d.put("Devices", Plist::array(vec![Plist::number(1), Plist::dict(Dict::new())]));
    let p = Plist::dict(d);
    assert_eq!(list_lines(&p).unwrap(), ["?  ?  ?  iOS ?  (0 services)"]);
    assert_eq!(list_entries(&p).unwrap()[0].udid, "");
    assert_eq!(list_lines(&Plist::number(1)).unwrap_err(), "bad response");
    assert_eq!(list_lines(&err_reply("busy")).unwrap_err(), "daemon error: busy");
    assert_eq!(list_lines(&request(&[])).unwrap_err(), "daemon error: unknown");
}

#[test]
fn devices_are_found_in_any_case() {
    let devices = vec![device(1, "AAA"), device(2, "bbB"), device(3, "BBB")];
    assert_eq!(find_device(&devices, "BbB"), Ok(2));
    assert_eq!(find_device(&devices, "c").unwrap_err(), "device c not connected");
}

#[test]
fn values_are_picked() {
    let mut all = Dict::new();
    for (k, v) in [("ProductType", "iPhone17,2"), ("ProductVersion", ""), ("BuildVersion", "23B85")] {
        all.put_str(k, v);
    }
    all.put("ChipID", Plist::number(33024));
    all.put_str("WiFiAddress", "aa:bb");
    let told = lockdown_values(&DeviceInfo::from_dict(&all));
    assert_eq!(told.len(), 3);
    assert_eq!(told.get("ProductType").unwrap().as_string(), Some("iPhone17,2"));
    assert_eq!(told.get("BuildVersion").unwrap().as_string(), Some("23B85"));
    assert_eq!(told.get("ChipID").unwrap().as_unsigned_integer(), Some(33024));
}

#[test]
fn chips_have_numbers() {
    assert_eq!(chip_number(&Ok(Plist::number(17))), 17);
    assert_eq!(chip_number(&Ok(Plist::number(-1))), 0);
    assert_eq!(chip_number(&Ok(Plist::text("17"))), 0);
    assert_eq!(chip_number(&Err(LockdownError::Closed)), 0);
}

#[test]
fn identities_are_found() {
    assert_eq!(
        list_services_request().at("cmd").unwrap().as_str(),
        Some("list_services")
    );
    let get = get_service_request();
    assert_eq!(get.at("cmd").unwrap().as_str(), Some("get_service"));
    assert_eq!(get.at("name").unwrap().as_str(), Some("com.apple.coredevice.deviceinfo"));

    let mut output = Dictionary::new();
    output.put_str("deviceIdentifier", "");
    output.put_str("uniqueDeviceIdentifier", "second");
    output.put_str("identifier", "first");
    let mut reply = Dictionary::new();
    reply.put("CoreDevice.output", Value::Dictionary(output));
    assert_eq!(
        extract_identifier_from_reply(&Value::Dictionary(reply)),
        Some("first".to_string())
    );
    assert_eq!(extract_identifier_from_reply(&Value::Null), None);
    assert_eq!(extract_identifier_from_reply(&Value::Dictionary(Dictionary::new())), None);
}
