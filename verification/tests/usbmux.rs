//! The multiplexer: requests, replies, and what they mean for those who wait.

use ios_rs::framing::{body_len, prefix};
use ios_rs::lockdown::session::read_body;
use ios_rs::proplist::format::from_bytes;
use ios_rs::tunnel::stack::Bridge;
use ios_rs::usbmux::codec::{frame, swap_port, Codec};
use ios_rs::usbmux::connection::{
    on_buid, on_list, on_listen, on_pair_record, on_record_changed, on_tunnel,
};
use ios_rs::usbmux::plist_msg::{BaseRequest, DeviceProperties, Envelope};
use ios_rs::usbmux::sim::{answer, understood, SimDevice, SimRequest};
use ios_rs::usbmux::socket::{parse_address, MuxAddr};
use ios_rs::usbmux::watch::{attached_line, detached_line};
use ios_rs::usbmux::{ConnectionType, Device, Error, Event, ProtoError, ResultCode, Wait};

fn list_devices(devices: &Vec<SimDevice>) -> Vec<Device> {
    let mut codec = Codec::new();
    let (_, tag) = codec.list_devices().unwrap();
    for reply in answer(devices, SimRequest::ListDevices) {
        let event = codec.event(tag, reply).unwrap();
        if let Wait::Over(got) = on_list(tag, event) {
            return got.unwrap();
        }
    }
    panic!("no list")
}

fn open_tunnel(devices: &Vec<SimDevice>, device_id: u32, port: u16) -> Result<(), Error> {
    let mut codec = Codec::new();
    let (_, tag) = codec.connect(device_id, port).unwrap();
    for reply in answer(devices, SimRequest::Connect { device_id, port }) {
        let event = codec.event(tag, reply).unwrap();
        if let Wait::Over(got) = on_tunnel(tag, event) {
            return got;
        }
    }
    panic!("no answer")
}

fn blank() -> Envelope {
    Envelope {
        message_type: None,
        number: None,
        device_list: None,
        buid: None,
        device_id: None,
        properties: None,
        pair_record_data: None,
    }
}

#[test]
fn list_devices_empty() {
    let devices = list_devices(&vec![]);
    assert!(devices.is_empty());
}

#[test]
fn list_devices_one_usb() {
    let devices = list_devices(&vec![SimDevice::usb("AABBCC112233")]);
    assert_eq!(devices.len(), 1);
    assert_eq!(devices[0].serial, "AABBCC112233");
    assert!(matches!(devices[0].connection_type, ConnectionType::Usb));
    assert_eq!(devices[0].product_id, 0x12a8);
}

#[test]
fn list_devices_mixed() {
    let devices = list_devices(&vec![
        SimDevice::usb("USB_DEVICE_001"),
        SimDevice::network("NET_DEVICE_002"),
    ]);
    assert_eq!(devices.len(), 2);

    let usb = devices.iter().find(|d| d.serial == "USB_DEVICE_001").unwrap();
    let net = devices.iter().find(|d| d.serial == "NET_DEVICE_002").unwrap();
    assert!(matches!(usb.connection_type, ConnectionType::Usb));
    assert!(matches!(net.connection_type, ConnectionType::Network));
}

#[test]
fn multiple_sequential_list_requests() {
    let sim = vec![SimDevice::usb("DEV1"), SimDevice::usb("DEV2")];
    for _ in 0..3 {
        assert_eq!(list_devices(&sim).len(), 2);
    }
}

#[test]
fn listen_receives_initial_attach_events() {
    let sim = vec![SimDevice::usb("LISTEN_A"), SimDevice::usb("LISTEN_B")];
    let mut codec = Codec::new();
    let (_, tag) = codec.listen().unwrap();
    let mut serials: Vec<String> = Vec::new();
    for reply in answer(&sim, SimRequest::Listen) {
        match on_listen(codec.event(tag, reply).unwrap()) {
            Wait::Over(Ok(Event::DeviceAttached(d))) => serials.push(d.serial),
            Wait::Over(_) => panic!("not attached"),
            Wait::More => {}
        }
    }
    serials.sort();
    assert_eq!(serials, ["LISTEN_A", "LISTEN_B"]);
}

#[test]
fn connect_to_unknown_port_returns_error() {
    let err = open_tunnel(&vec![SimDevice::usb("DEV_NO_SERVICES")], 1, 62078);
    assert!(err.is_err(), "expected error connecting to unregistered port");
    assert!(matches!(err, Err(Error::RequestFailed(ResultCode::ConnRefused))));
}

#[test]
fn connect_to_bad_device_returns_error() {
    let err = open_tunnel(&vec![SimDevice::usb("SOLO")], 999, 62078);
    assert!(err.is_err());
    assert!(matches!(err, Err(Error::RequestFailed(ResultCode::BadDevice))));
}

#[test]
fn open_tunnel_and_echo_service() {
    let sim = vec![SimDevice::usb("ECHO_DEV").with_service(9999)];
    let mut codec = Codec::new();
    let (sent, _) = codec.connect(1, 9999).unwrap();
    let mut far = Codec::new();
    far.push_data(&sent);
    let (tag, body) = far.poll_frame().unwrap().unwrap();
    let asked = from_bytes(&body).unwrap();
    let request = understood(
        asked.text_at("MessageType").unwrap(),
        asked.unsigned_at("DeviceID").map(|n| n as u32),
        asked.unsigned_at("PortNumber").map(|n| n as u16),
    );
    assert_eq!(request, SimRequest::Connect { device_id: 1, port: 9999 });
    let replies = answer(&sim, request);
    assert_eq!(replies.len(), 1);
    assert_eq!(replies[0].number, Some(0));
    assert!(sim[0].has_service(9999));
    assert!(open_tunnel(&sim, 1, 9999).is_ok());

    let sent = b"PING";
    let echo = |bytes: &[u8; 4]| *bytes;
    let mut bridge = Bridge::new();
    let reply = echo(sent);
    assert!(!bridge.received(&reply, 1));
    assert_eq!(bridge.held(), &sent[1..]);
    assert!(bridge.flushed(3));
    assert_eq!(&reply, sent);
    assert_eq!(tag, 1);
}

#[test]
fn open_tunnel_lockdown_style_service() {
    let response_plist = br#"<?xml version="1.0" encoding="UTF-8"?>
<!DOCTYPE plist PUBLIC "-//Apple//DTD PLIST 1.0//EN" "http://www.apple.com/DTDs/PropertyList-1.0.dtd">
<plist version="1.0"><dict>
  <key>Request</key><string>GetValue</string>
  <key>Value</key><string>iPhone17,2</string>
</dict></plist>"#;
    let serve = |request: &[u8]| -> Vec<u8> {
        let len = body_len(&request[..4]) as usize;
        let body = read_body(&request[4..4 + len]).unwrap();
        assert_eq!(body.text_at("Request"), Some("GetValue"));
        prefix(response_plist)
    };
    let sim = vec![SimDevice::usb("LOCKDOWN_DEV").with_service(62078)];
    assert!(open_tunnel(&sim, 1, 62078).is_ok());

    let req_plist = b"<plist><dict><key>Request</key><string>GetValue</string></dict></plist>";
    let len = req_plist.len() as u32;
    let request = prefix(req_plist);
    assert_eq!(request[..4], len.to_be_bytes());

    let response = serve(&request);
    let resp_len = body_len(&response[..4]) as usize;
    let resp_body = &response[4..4 + resp_len];
    let resp_str = std::str::from_utf8(resp_body).unwrap();
    assert!(resp_str.contains("iPhone17,2"), "unexpected response: {resp_str}");
    assert_eq!(read_body(resp_body).unwrap().text_at("Value"), Some("iPhone17,2"));
}

#[test]
fn connect_to_a_service() {
    let sim = vec![SimDevice::usb("ECHO_DEV").with_service(9999)];
    assert!(open_tunnel(&sim, 1, 9999).is_ok());
    assert!(open_tunnel(&sim, 1, 9998).is_err());
    assert!(open_tunnel(&sim, 0, 9999).is_err());
}

#[test]
fn read_buid_returns_string() {
    let mut codec = Codec::new();
    let (_, tag) = codec.read_buid().unwrap();
    let mut buid = String::new();
    for reply in answer(&vec![], SimRequest::ReadBuid) {
        if let Wait::Over(got) = on_buid(codec.event(tag, reply).unwrap()) {
            buid = got.unwrap();
        }
    }
    assert!(!buid.is_empty(), "BUID should not be empty");
    assert!(buid.contains('-'), "BUID looks like a UUID: {buid}");
}

#[test]
fn unknown_requests_are_bad_commands() {
    let codec = Codec::new();
    let mut replies = answer(&vec![], SimRequest::Other);
    let event = codec.event(5, replies.remove(0)).unwrap();
    assert!(matches!(event, Event::RequestFailed { tag: 5, code: ResultCode::BadCommand }));
}

#[test]
fn frames_have_a_header() {
    assert_eq!(
        frame(b"abc", 7),
        [19, 0, 0, 0, 1, 0, 0, 0, 8, 0, 0, 0, 7, 0, 0, 0, b'a', b'b', b'c'],
    );
}

#[test]
fn frames_are_found_in_pieces() {
    let mut codec = Codec::new();
    let mut bytes = frame(b"first", 1);
    bytes.extend(frame(b"second", 2));
    for b in &bytes[..20] {
        codec.push_data(&[*b]);
        assert!(codec.poll_frame().unwrap().is_none());
    }
    codec.push_data(&bytes[20..]);
    assert_eq!(codec.poll_frame().unwrap(), Some((1, b"first".to_vec())));
    assert_eq!(codec.poll_frame().unwrap(), Some((2, b"second".to_vec())));
    assert!(codec.poll_frame().unwrap().is_none());
}

#[test]
fn a_frame_covers_its_header() {
    let mut codec = Codec::new();
    codec.push_data(&[15, 0, 0, 0, 1, 0, 0, 0, 8, 0, 0, 0, 7, 0, 0, 0]);
    let err = codec.poll_frame().unwrap_err();
    assert!(matches!(err, ProtoError::FrameTooShort { got: 15, need: 16 }));
    assert_eq!(err.text(), "frame too short: got 15, need 16");
}

#[test]
fn requests_count_their_tags() {
    let mut codec = Codec::new();
    let (first, a) = codec.list_devices().unwrap();
    let (second, b) = codec.read_buid().unwrap();
    assert_eq!((a, b), (1, 2));
    assert_eq!(first[12], 1);
    assert_eq!(second[12], 2);
    let p = from_bytes(&second[16..]).unwrap();
    assert_eq!(p.text_at("MessageType"), Some("ReadBUID"));
    assert_eq!(p.text_at("ClientVersionString"), Some("devicelink-0.1.0"));
    assert_eq!(p.text_at("ProgName"), Some("devicelink"));
    assert_eq!(p.unsigned_at("kLibUSBMuxVersion"), Some(3));
}

#[test]
fn connect_swaps_the_port() {
    assert_eq!(swap_port(0x1234), 0x3412);
    assert_eq!(swap_port(swap_port(62078)), 62078);
    let mut codec = Codec::new();
    let (bytes, _) = codec.connect(3, 62078).unwrap();
    let p = from_bytes(&bytes[16..]).unwrap();
    assert_eq!(p.text_at("MessageType"), Some("Connect"));
    assert_eq!(p.unsigned_at("DeviceID"), Some(3));
    assert_eq!(p.unsigned_at("PortNumber"), Some(32498));
}

#[test]
fn pair_records_are_read_and_changed() {
    let mut codec = Codec::new();
    let (bytes, tag) = codec.read_pair_record("UDID-1").unwrap();
    let p = from_bytes(&bytes[16..]).unwrap();
    assert_eq!(p.text_at("MessageType"), Some("ReadPairRecord"));
    assert_eq!(p.text_at("PairRecordID"), Some("UDID-1"));
    let mut env = blank();
    env.pair_record_data = Some(vec![1, 2, 3]);
    let event = codec.event(tag, env).unwrap();
    if let Event::PairRecord { udid, .. } = &event {
        assert_eq!(udid, "UDID-1");
    }
    assert!(matches!(on_pair_record(event), Wait::Over(Ok(r)) if r == [1, 2, 3]));

    let (bytes, _) = codec.save_pair_record("UDID-1", vec![9, 8]).unwrap();
    let p = from_bytes(&bytes[16..]).unwrap();
    assert_eq!(p.text_at("MessageType"), Some("SavePairRecord"));
    assert_eq!(p.data_at("PairRecordData"), Some(&[9u8, 8][..]));
    let (bytes, _) = codec.delete_pair_record("UDID-1").unwrap();
    let p = from_bytes(&bytes[16..]).unwrap();
    assert_eq!(p.text_at("MessageType"), Some("DeletePairRecord"));

    assert!(on_record_changed(Event::RequestOk { tag: 1 }).is_ok());
    let failed = Event::RequestFailed { tag: 1, code: ResultCode::BadVersion };
    assert!(matches!(
        on_record_changed(failed),
        Err(Error::RequestFailed(ResultCode::BadDevice))
    ));
}

#[test]
fn results_are_for_their_requests() {
    let other = Event::RequestFailed { tag: 2, code: ResultCode::BadCommand };
    assert!(matches!(on_list(1, other), Wait::More));
    let own = Event::RequestFailed { tag: 1, code: ResultCode::BadCommand };
    assert!(matches!(
        on_list(1, own),
        Wait::Over(Err(Error::RequestFailed(ResultCode::BadDevice)))
    ));
    assert!(matches!(on_tunnel(1, Event::Connected { tag: 2 }), Wait::More));
    assert!(matches!(on_tunnel(1, Event::Connected { tag: 1 }), Wait::Over(Ok(()))));
    let refused = Event::RequestFailed { tag: 9, code: ResultCode::ConnRefused };
    assert!(matches!(
        on_tunnel(1, refused),
        Wait::Over(Err(Error::RequestFailed(ResultCode::ConnRefused)))
    ));
    assert!(matches!(
        on_listen(Event::DeviceDetached { device_id: 4 }),
        Wait::Over(Ok(Event::DeviceDetached { device_id: 4 }))
    ));
    assert!(matches!(on_listen(Event::RequestOk { tag: 1 }), Wait::More));
}

#[test]
fn messages_that_are_not_understood() {
    let codec = Codec::new();
    let err = codec.event(1, blank()).unwrap_err();
    assert!(matches!(&err, ProtoError::UnexpectedMessage(m) if m.is_empty()));
    let mut env = blank();
    env.message_type = Some("Paired".into());
    let err = codec.event(1, env).unwrap_err();
    assert_eq!(err.text(), "unexpected message type in response: Paired");
    let mut env = blank();
    env.message_type = Some("Attached".into());
    env.device_id = Some(3);
    assert!(codec.event(1, env).is_err());
}

#[test]
fn devices_without_properties_are_blank() {
    let codec = Codec::new();
    let mut env = blank();
    env.message_type = Some("Attached".into());
    env.device_id = Some(3);
    env.properties = Some(DeviceProperties {
        serial_number: None,
        connection_type: Some("Bluetooth".into()),
        product_id: None,
        location_id: Some(8),
    });
    match codec.event(1, env).unwrap() {
        Event::DeviceAttached(d) => {
            assert_eq!((d.device_id, d.serial.as_str()), (3, ""));
            assert_eq!((d.product_id, d.location_id), (0, 8));
            assert_eq!(d.connection_type.text(), "Bluetooth");
        }
        _ => panic!("not attached"),
    }
    let mut env = blank();
    env.message_type = Some("Detached".into());
    env.device_id = Some(3);
    assert!(matches!(codec.event(1, env).unwrap(), Event::DeviceDetached { device_id: 3 }));
}

#[test]
fn results_have_names() {
    let names = [
        (0u32, "OK"),
        (1, "bad command"),
        (2, "bad device"),
        (3, "connection refused"),
        (4, "no such service"),
        (5, "unknown error 5"),
        (6, "bad version"),
        (77, "unknown error 77"),
    ];
    for (n, name) in names {
        assert_eq!(ResultCode::from(n).text(), name);
    }
    assert_eq!(
        Error::RequestFailed(ResultCode::BadDevice).text(),
        "request failed: bad device"
    );
    assert_eq!(Error::ConnectionClosed.text(), "connection closed");
    assert_eq!(Error::Closed.text(), "usbmuxd closed connection unexpectedly");
    assert_eq!(
        Error::ConnectFailed(ResultCode::ConnRefused).text(),
        "usbmuxd connect failed: connection refused"
    );
}

#[test]
fn addresses_are_hosts_or_paths() {
    assert!(matches!(
        parse_address("10.0.0.1:27015"),
        Ok(MuxAddr::Tcp(h, 27015)) if h == "10.0.0.1"
    ));
    assert!(matches!(parse_address("/run/mux"), Ok(MuxAddr::Unix(p)) if p == "/run/mux"));
    assert_eq!(
        parse_address("host:70000").unwrap_err(),
        "bad USBMUXD_SOCKET_ADDRESS port"
    );
    assert!(parse_address("::1:5").is_err());
}

#[test]
fn devices_that_come_and_go_are_shown() {
    let d = Device {
        device_id: 1,
        serial: "ABC".into(),
        connection_type: ConnectionType::named("USB"),
        product_id: 0x2a8,
        location_id: 0,
    };
    assert_eq!(attached_line(&d), "+ ABC [USB] product=0x02a8");
    assert_eq!(detached_line(12), "- device_id=12");
}

#[test]
fn base_requests_name_the_program() {
    let r = BaseRequest::new("Listen");
    assert_eq!(r.message_type, "Listen");
    assert_eq!(r.client_version_string, "devicelink-0.1.0");
    assert_eq!(r.prog_name, "devicelink");
    assert_eq!(r.lib_usbmux_version, 3);
}

#[test]
fn sim_understands_what_clients_ask() {
    assert_eq!(understood("ListDevices", None, None), SimRequest::ListDevices);
    assert_eq!(understood("Listen", None, None), SimRequest::Listen);
    assert_eq!(understood("ReadBUID", None, None), SimRequest::ReadBuid);
    assert_eq!(
        understood("Connect", Some(1), Some(62078u16.swap_bytes())),
        SimRequest::Connect { device_id: 1, port: 62078 }
    );
    assert_eq!(understood("Connect", Some(1), None), SimRequest::Other);
    assert_eq!(understood("Logs", None, None), SimRequest::Other);
}
