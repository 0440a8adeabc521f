//! Sessions with the lockdown service.

use ios_rs::lockdown::session::{
    accessible, all_values, expect_response, frame, get_value_request, listed_services, merged_services, one_value,
    queried_type, query_type_request, read_body, service_started, services_among,
    set_value_request, start_service_request, start_session_request, value_set, BaseResponse,
};
use ios_rs::lockdown::{Error, LockdownSession, PairRecord, ServiceInfo, LOCKDOWN_PORT};
use ios_rs::proplist::{Dict, Plist};

fn why(e: Error) -> String {
    match e {
        Error::Lockdown(t) => t,
        _ => panic!("another error"),
    }
}

fn blank() -> BaseResponse {
    BaseResponse {
        error: None,
        value: None,
        port: None,
        enable_service_ssl: None,
        session_id: None,
        enable_session_ssl: None,
    }
}

fn pair() -> PairRecord {
    PairRecord {
        host_id: "H".into(),
        system_buid: "B".into(),
        host_certificate: b"hc".to_vec(),
        host_private_key: vec![],
        device_certificate: vec![],
        root_certificate: vec![],
    }
}

#[test]
fn requests_for_values() {
    let p = get_value_request(Some("com.apple.x"), Some("Key1"));
    assert_eq!(p.text_at("Request"), Some("GetValue"));
    assert_eq!(p.text_at("Domain"), Some("com.apple.x"));
    assert_eq!(p.text_at("Key"), Some("Key1"));
    assert_eq!(p.text_at("Label"), Some("devicelink"));
    let p = get_value_request(None, None);
    assert!(p.at("Domain").is_none() && p.at("Key").is_none());
    let p = set_value_request(None, "K", Plist::truth(true));
    assert_eq!(p.text_at("Request"), Some("SetValue"));
    assert_eq!(p.truth_at("Value"), Some(true));
    let p = start_service_request("com.apple.afc");
    assert_eq!(p.text_at("Service"), Some("com.apple.afc"));
    assert_eq!(query_type_request().text_at("Request"), Some("QueryType"));
    let p = start_session_request(&pair());
    assert_eq!(p.text_at("HostID"), Some("H"));
    assert_eq!(p.text_at("SystemBUID"), Some("B"));
    assert_eq!(LOCKDOWN_PORT, 62078);
}

#[test]
fn lockdown_messages_have_lengths() {
    let bytes = frame(&query_type_request()).unwrap();
    let len = u32::from_be_bytes([bytes[0], bytes[1], bytes[2], bytes[3]]) as usize;
    assert_eq!(len + 4, bytes.len());
    assert_eq!(read_body(&bytes[4..]).unwrap().text_at("Request"), Some("QueryType"));
    assert!(matches!(read_body(b"bplist00"), Err(Error::Plist(_))));
    assert!(matches!(frame(&Plist::uid(1)), Err(Error::Plist(_))));
}

#[test]
fn replies_may_tell_errors() {
    assert!(expect_response(Ok(blank())).is_ok());
    let mut r = blank();
    r.error = Some("InvalidHostID".into());
    assert_eq!(why(expect_response(Ok(r)).unwrap_err()), "InvalidHostID");
    assert_eq!(why(expect_response(Err("x".into())).unwrap_err()), "response parse error: x");
}

#[test]
fn values_are_told() {
    let mut all = Dict::new();
    all.put_str("DeviceName", "Phone");
    all.put_str("ProductVersion", "18.1");
    all.put("BasebandStatus", Plist::number(3));
    let mut r = blank();
    r.value = Some(Plist::dict(all));
    let info = all_values(&r).unwrap();
    assert_eq!(info.device_name, "Phone");
    assert_eq!(info.product_version, "18.1");
    assert_eq!(info.serial_number, "");
    assert_eq!(info.extra.len(), 1);
    assert_eq!(info.extra.key_at(0), "BasebandStatus");
    assert_eq!(why(all_values(&blank()).unwrap_err()), "GetValue returned unexpected payload");
    let mut r = blank();
    r.value = Some(Plist::number(4));
    assert_eq!(one_value(r, "K").unwrap().as_signed_integer(), Some(4));
    assert_eq!(why(one_value(blank(), "K").unwrap_err()), "no Value for key K");
    assert!(value_set(&blank(), "K").is_ok());
    let mut r = blank();
    r.error = Some("no".into());
    assert_eq!(why(value_set(&r, "K").unwrap_err()), "SetValue(K): no");
}

#[test]
fn services_are_started() {
    let mut r = blank();
    r.port = Some(5000);
    r.enable_service_ssl = Some(true);
    assert_eq!(
        service_started(&r, "s").unwrap(),
        ServiceInfo { port: 5000, enable_service_ssl: true }
    );
    assert_eq!(
        why(service_started(&blank(), "s").unwrap_err()),
        "StartService(s) failed: no port returned"
    );
    let mut r = blank();
    r.error = Some("InvalidService".into());
    assert_eq!(
        why(service_started(&r, "s").unwrap_err()),
        "StartService(s) failed: InvalidService"
    );
}

#[test]
fn the_service_has_a_type() {
    let mut d = Dict::new();
    d.put_str("Type", "com.apple.mobile.lockdown");
    assert_eq!(queried_type(&Plist::dict(d)).unwrap(), "com.apple.mobile.lockdown");
    assert_eq!(
        why(queried_type(&Plist::dict(Dict::new())).unwrap_err()),
        "QueryType: no Type field"
    );
    assert_eq!(
        why(queried_type(&Plist::number(1)).unwrap_err()),
        "QueryType: unexpected response"
    );
}

#[test]
fn services_are_listed() {
    let mut s = Dict::new();
    s.put("a", Plist::number(1));
    s.put("b", Plist::number(2));
    assert_eq!(listed_services(Some(&Plist::dict(s.dup()))).unwrap(), ["a", "b"]);
    assert!(listed_services(Some(&Plist::number(1))).is_none());
    assert!(listed_services(None).is_none());
    let mut all = Dict::new();
    all.put("Services", Plist::dict(s.dup()));
    assert_eq!(services_among(Some(&Plist::dict(all))), ["a", "b"]);
    assert!(services_among(None).is_empty());
    assert!(merged_services(None, None).is_empty());
    let mut b = Dict::new();
    b.put("b", Plist::truth(true));
    b.put("c", Plist::truth(true));
    let mut more = Dict::new();
    more.put("Services", Plist::dict(b));
    let (domain, more) = (Plist::dict(s.dup()), Plist::dict(more));
    assert_eq!(merged_services(Some(&domain), Some(&more)), ["a", "b", "c"]);
    assert_eq!(merged_services(None, Some(&more)), ["b", "c"]);
    assert_eq!(merged_services(Some(&domain), Some(&Plist::number(1))), ["a", "b"]);
}

#[test]
fn sessions_start_and_stop_once() {
    let mut s = LockdownSession::connect(7);
    assert_eq!(s.device_id(), 7);
    assert!(s.stop_session().is_none());
    assert_eq!(
        why(s.start_session(&pair(), &blank()).unwrap_err()),
        "StartSession: no SessionID"
    );
    let tls = ServiceInfo { port: 1, enable_service_ssl: true };
    match s.service_credentials("x", tls) {
        Err(Error::Tls(t)) => assert_eq!(
            t,
            "service x requires SSL but no pair record — call start_session first"
        ),
        _ => panic!("no error"),
    }
    let plain = ServiceInfo { port: 1, enable_service_ssl: false };
    assert!(s.service_credentials("x", plain).unwrap().is_none());

    let mut r = blank();
    r.session_id = Some("SID".into());
    r.enable_session_ssl = Some(true);
    assert_eq!(s.start_session(&pair(), &r).unwrap(), ("SID".to_string(), true));
    assert_eq!(s.service_credentials("x", tls).unwrap().unwrap().host_certificate, b"hc");
    let stop = s.stop_session().unwrap();
    assert_eq!(stop.text_at("Request"), Some("StopSession"));
    assert_eq!(stop.text_at("SessionID"), Some("SID"));
    assert!(s.stop_session().is_none());
}

#[test]
fn a_refusal_counts_as_nothing() {
    assert!(matches!(accessible(Ok(5)), Ok(Some(5))));
    assert!(matches!(accessible::<u8>(Err(Error::Lockdown("no".into()))), Ok(None)));
    assert!(matches!(accessible::<u8>(Err(Error::Closed)), Err(Error::Closed)));
    assert!(matches!(
        accessible::<u8>(Err(Error::PairRecord("x".into()))),
        Err(Error::PairRecord(t)) if t == "x"
    ));
}
