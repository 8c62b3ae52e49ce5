use tuya_meter::device::TuyaDevice;
use tuya_meter::dps::{choose_type, detect_device_type, extract_dps, parse_dps_response, points_of};
use tuya_meter::config::DeviceType;
use tuya_meter::frame::{build_6699, nonce_at, ProtoVer, ProtocolError};
use tuya_meter::json::{parse_json, Json};
use tuya_meter::query::{
    add_dps, CollectAction, CollectEvent, Collector, DeviceError, Query, QueryAction, QueryEvent,
};

const KEY: [u8; 16] = *b"0123456789ABCDEF";

fn device() -> TuyaDevice {
    TuyaDevice::new("dev1", "0123456789ABCDEF", ProtoVer::V35).unwrap()
}

fn message(text: &str) -> Vec<u8> {
    let mut plain = vec![0; 4];
    plain.extend_from_slice(text.as_bytes());
    build_6699(1, 8, &plain, &KEY, &nonce_at(5))
}

fn received(text: &str, now: u128) -> CollectEvent {
    CollectEvent::Received { data: message(text), now }
}

#[test]
fn data_points_are_found_in_either_place() {
    let inner = parse_json("{\"data\":{\"dps\":{\"1\":2}},\"dps\":{\"1\":3}}").unwrap();
    assert_eq!(extract_dps(&inner).unwrap().to_text(), "{\"1\":2}");
    let outer = parse_json("{\"data\":{},\"dps\":{\"1\":3}}").unwrap();
    assert_eq!(extract_dps(&outer).unwrap().to_text(), "{\"1\":3}");
    let none = parse_json("{\"x\":1}").unwrap();
    assert!(extract_dps(&none).is_none());
    assert_eq!(points_of(none).to_text(), "{\"x\":1}");
}

#[test]
fn payloads_are_read_from_their_first_brace() {
    let dps = parse_dps_response(b"junk{\"dps\":{\"20\":1.5}}").unwrap();
    assert_eq!(dps.to_text(), "{\"20\":1.5}");
    assert_eq!(parse_dps_response(b"17").unwrap().to_text(), "17");
}

#[test]
fn payloads_that_are_no_text() {
    let e = parse_dps_response(b"{\xff").unwrap_err();
    assert_eq!(
        e.message(),
        "utf8: invalid utf-8 sequence of 1 bytes from index 1"
    );
}

#[test]
fn payloads_that_are_no_json() {
    let e = parse_dps_response(b"{oops").unwrap_err();
    assert_eq!(
        e.message(),
        "json: key must be a string at line 1 column 2: {oops"
    );
}

#[test]
fn meters_are_told_apart() {
    let of = |text: &str| detect_device_type(&parse_json(text).unwrap());
    assert_eq!(of("{\"20\":1}"), DeviceType::At4pw);
    assert_eq!(of("{\"18\":null}"), DeviceType::At4pw);
    assert_eq!(of("{\"6\":\"\"}"), DeviceType::Ct);
    assert_eq!(of("[]"), DeviceType::Ct);
}

#[test]
fn the_settings_decide_on_the_kind_of_meter() {
    let plug = parse_json("{\"20\":1}").unwrap();
    assert_eq!(choose_type(Some(DeviceType::Ct), Some(&plug)), DeviceType::Ct);
    assert_eq!(choose_type(None, Some(&plug)), DeviceType::At4pw);
    assert_eq!(choose_type(None, Some(&Json::Null)), DeviceType::Ct);
    assert_eq!(choose_type(None, None), DeviceType::At4pw);
}

#[test]
fn one_message_is_received() {
    let dev = device();
    let dps = dev.recv_one(&message("{\"dps\":{\"20\":5}}")).unwrap().unwrap().unwrap();
    assert_eq!(dps.to_text(), "{\"20\":5}");
    assert!(dev.recv_one(&message("{nothing")).unwrap().unwrap().is_none());
    assert!(dev.recv_one(b"abc").unwrap().unwrap().is_none());
    let mut forged = message("{}");
    forged[32] ^= 1;
    assert_eq!(dev.recv_one(&forged).unwrap().unwrap_err(), ProtocolError::GcmFailed);
}

#[test]
fn answers_are_collected_and_merged() {
    let dev = device();
    let mut c = Collector::new(1_000);
    let a = c.request_all_dps(&dev, received("{\"dps\":{\"20\":5,\"18\":1}}", 2_000));
    assert!(matches!(a, CollectAction::Receive));
    let a = c.request_all_dps(&dev, received("{\"dps\":{\"18\":2,\"19\":3}}", 3_000));
    assert!(matches!(a, CollectAction::Receive));
    let a = c.request_all_dps(&dev, received("[1]", 4_000));
    assert!(matches!(a, CollectAction::Receive));
    match c.request_all_dps(&dev, CollectEvent::Silence) {
        CollectAction::Done(all) => assert_eq!(all.to_text(), "{\"20\":5,\"18\":2,\"19\":3}"),
        other => panic!("{other:?}"),
    }
}

#[test]
fn collecting_ends_after_eight_seconds() {
    let dev = device();
    let mut c = Collector::new(1_000);
    let a = c.request_all_dps(&dev, received("{\"dps\":{\"20\":5}}", 8_000_001_000));
    assert!(matches!(a, CollectAction::Receive));
    match c.request_all_dps(&dev, received("{\"dps\":{\"20\":6}}", 8_000_001_001)) {
        CollectAction::Done(all) => assert_eq!(all.to_text(), "{\"20\":6}"),
        other => panic!("{other:?}"),
    }
}

#[test]
fn no_answers_at_all() {
    let dev = device();
    let mut c = Collector::new(0);
    match c.request_all_dps(&dev, CollectEvent::Silence) {
        CollectAction::Failed(e) => assert_eq!(e.message(), "no DPs received"),
        other => panic!("{other:?}"),
    }
}

#[test]
fn a_forged_answer_ends_the_collection() {
    let dev = device();
    let mut c = Collector::new(0);
    let mut data = message("{\"dps\":{}}");
    data[33] ^= 1;
    match c.request_all_dps(&dev, CollectEvent::Received { data, now: 0 }) {
        CollectAction::Failed(DeviceError::Protocol(e)) => assert_eq!(e, ProtocolError::GcmFailed),
        other => panic!("{other:?}"),
    }
    let mut data = message("");
    data[17] = 3;
    match c.request_all_dps(&dev, CollectEvent::Received { data, now: 0 }) {
        CollectAction::Fatal => {}
        other => panic!("{other:?}"),
    }
}

#[test]
fn a_query_puts_both_answers_together() {
    let mut dev = device();
    let mut q = Query::new();
    match q.query_dps(&mut dev, QueryEvent::Start { now_secs: 1 }, 5) {
        QueryAction::Ask(msg) => assert_eq!(&msg[10..14], &[0, 0, 0, 16]),
        other => panic!("{other:?}"),
    }
    let resp = message("{\"dps\":{\"20\":1,\"1\":true}}");
    match q.query_dps(&mut dev, QueryEvent::Answer { resp }, 5) {
        QueryAction::Request(msg) => assert_eq!(&msg[10..14], &[0, 0, 0, 18]),
        other => panic!("{other:?}"),
    }
    assert!(matches!(
        q.query_dps(&mut dev, QueryEvent::RequestSent { now: 10 }, 5),
        QueryAction::Receive
    ));
    let event = QueryEvent::Collect(received("{\"dps\":{\"20\":2,\"19\":7}}", 11));
    assert!(matches!(q.query_dps(&mut dev, event, 5), QueryAction::Receive));
    match q.query_dps(&mut dev, QueryEvent::Collect(CollectEvent::Silence), 5) {
        QueryAction::Done(all) => assert_eq!(all.to_text(), "{\"20\":2,\"1\":true,\"19\":7}"),
        other => panic!("{other:?}"),
    }
}

#[test]
fn a_query_without_update_keeps_the_first_answer() {
    let mut dev = device();
    let mut q = Query::new();
    let resp = message("{\"dps\":{\"20\":1}}");
    assert!(matches!(
        q.query_dps(&mut dev, QueryEvent::Answer { resp }, 5),
        QueryAction::Request(_)
    ));
    match q.query_dps(&mut dev, QueryEvent::RequestLost, 5) {
        QueryAction::Done(all) => assert_eq!(all.to_text(), "{\"20\":1}"),
        other => panic!("{other:?}"),
    }
    q.query_dps(&mut dev, QueryEvent::RequestSent { now: 0 }, 5);
    match q.query_dps(&mut dev, QueryEvent::Collect(CollectEvent::Silence), 5) {
        QueryAction::Done(all) => assert_eq!(all.to_text(), "{\"20\":1}"),
        other => panic!("{other:?}"),
    }
}

#[test]
fn a_query_fails_on_a_bad_answer() {
    let mut dev = device();
    let mut q = Query::new();
    match q.query_dps(&mut dev, QueryEvent::Answer { resp: vec![1] }, 5) {
        QueryAction::Failed(e) => assert_eq!(e.message(), "response too short"),
        other => panic!("{other:?}"),
    }
    match q.query_dps(&mut dev, QueryEvent::Answer { resp: message("{bad") }, 5) {
        QueryAction::Failed(e) => assert!(e.message().starts_with("json: ")),
        other => panic!("{other:?}"),
    }
}

#[test]
fn values_other_than_objects_add_nothing() {
    let mut fields = vec![];
    add_dps(&mut fields, &parse_json("{\"a\":1}").unwrap());
    add_dps(&mut fields, &Json::Bool(true));
    assert_eq!(Json::Object(fields).to_text(), "{\"a\":1}");
}

#[test]
fn a_query_that_runs_out_of_time_puts_both_answers_together() {
    let mut dev = device();
    let mut q = Query::new();
    let resp = message("{\"dps\":{\"20\":1,\"1\":true}}");
    q.query_dps(&mut dev, QueryEvent::Answer { resp }, 5);
    q.query_dps(&mut dev, QueryEvent::RequestSent { now: 10 }, 5);
    let event = QueryEvent::Collect(received("{\"dps\":{\"20\":2,\"19\":7}}", 11));
    assert!(matches!(q.query_dps(&mut dev, event, 5), QueryAction::Receive));
    let event = QueryEvent::Collect(received("{\"dps\":{\"20\":3,\"20\":4}}", 8_000_000_011));
    match q.query_dps(&mut dev, event, 5) {
        QueryAction::Done(all) => assert_eq!(all.to_text(), "{\"20\":4,\"1\":true,\"19\":7}"),
        other => panic!("{other:?}"),
    }
}
