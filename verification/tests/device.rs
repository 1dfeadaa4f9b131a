//! Behavior of the device session core: connection state, the poll and
//! write paths, bus fan-out, and the maintained hierarchical model.

use motu::bus::Update;
use motu::device::{Device, DeviceError, DeviceType, KeyType, PollResponse};
use motu::extchannel::{ChannelBankType, Trim, TrimValue};
use motu::value::Value;
use tokio::sync::broadcast::error::TryRecvError;

fn fresh_device() -> Device {
    Device::new("Studio", "studio.local", 8080, "0001f2abcd", DeviceType::Device)
}

fn connected_device() -> Device {
    let mut d = fresh_device();
    d.begin_connect().expect("first connect succeeds");
    d
}

fn entry(path: &str, v: Value) -> (String, Value) {
    (path.to_string(), v)
}

#[test]
fn new_device_has_its_identity_and_urls() {
    let d = fresh_device();
    assert_eq!(d.name(), "Studio");
    assert_eq!(d.hostname(), "studio.local");
    assert_eq!(d.port(), 8080);
    assert_eq!(d.uid(), "0001f2abcd");
    assert_eq!(d.device_type(), DeviceType::Device);
    assert!(!d.connected());
    assert_eq!(d.url(), "http://studio.local:8080/datastore");
    assert_eq!(d.health_url(), "http://studio.local:8080/apiversion");
    assert_eq!(d.get_value("uid"), None);
}

#[test]
fn connecting_twice_is_rejected() {
    let mut d = fresh_device();
    d.begin_connect().expect("first connect succeeds");
    assert!(d.connected());
    assert_eq!(d.begin_connect().unwrap_err(), DeviceError::AlreadyConnected);
}

#[test]
fn subscribing_before_connect_is_an_error() {
    let d = fresh_device();
    match d.updates() {
        Err(DeviceError::NotConnected) => {}
        other => panic!("expected NotConnected, got {:?}", other.map(|_| ())),
    }
}

#[test]
fn banks_before_seeding_are_an_error() {
    let d = connected_device();
    assert!(matches!(
        d.input_banks(),
        Err(DeviceError::ChannelBanksNotInitalized)
    ));
    assert!(matches!(
        d.output_banks(),
        Err(DeviceError::ChannelBanksNotInitalized)
    ));
}

#[test]
fn poll_entries_are_decoded_mirrored_and_emitted() {
    let mut d = connected_device();
    let mut rx = d.updates().expect("subscribe after connect");
    d.apply_poll_response(PollResponse::Changed(vec![
        entry("ext/ibank/0/pad", Value::String("bool:1".to_string())),
        entry("ext/ibank/0/numCh", Value::Int(8)),
    ]));
    assert_eq!(d.get_value("ext/ibank/0/pad"), Some(Value::Bool(true)));
    assert_eq!(d.get_value("ext/ibank/0/numCh"), Some(Value::Int(8)));
    match rx.try_recv().expect("first update") {
        Update::External(k, v) => {
            assert_eq!(k, "ext/ibank/0/pad");
            assert_eq!(v, Value::Bool(true));
        }
        other => panic!("expected an external update, got {:?}", other),
    }
    match rx.try_recv().expect("second update") {
        Update::External(k, v) => {
            assert_eq!(k, "ext/ibank/0/numCh");
            assert_eq!(v, Value::Int(8));
        }
        other => panic!("expected an external update, got {:?}", other),
    }
    assert!(matches!(rx.try_recv(), Err(TryRecvError::Empty)));
}

#[test]
fn undecodable_poll_entry_is_skipped_not_fatal() {
    let mut d = connected_device();
    let mut rx = d.updates().unwrap();
    d.apply_poll_response(PollResponse::Changed(vec![
        entry("bad", Value::String("enum:x".to_string())),
        entry("good", Value::String("bool:0".to_string())),
    ]));
    assert_eq!(d.get_value("bad"), None);
    assert_eq!(d.get_value("good"), Some(Value::Bool(false)));
    match rx.try_recv().unwrap() {
        Update::External(k, _) => assert_eq!(k, "good"),
        other => panic!("expected an external update, got {:?}", other),
    }
    assert!(matches!(rx.try_recv(), Err(TryRecvError::Empty)));
}

#[test]
fn not_modified_changes_nothing_and_emits_nothing() {
    let mut d = connected_device();
    d.apply_poll_response(PollResponse::Changed(vec![
        entry("ext/ibank/0/name", Value::String("A".to_string())),
        entry("ext/ibank/0/numCh", Value::Int(2)),
    ]));
    let mut rx = d.updates().unwrap();
    let mut before = d
        .get()
        .snapshot()
        .into_iter()
        .map(|(k, v)| (k, v.encode()))
        .collect::<Vec<_>>();
    before.sort();

    d.apply_poll_response(PollResponse::NotModified);

    let mut after = d
        .get()
        .snapshot()
        .into_iter()
        .map(|(k, v)| (k, v.encode()))
        .collect::<Vec<_>>();
    after.sort();
    assert_eq!(before, after);
    assert!(matches!(rx.try_recv(), Err(TryRecvError::Empty)));
}

#[test]
fn successful_write_lands_in_cache_and_emits_one_internal() {
    let mut d = connected_device();
    let mut rx = d.updates().expect("fresh subscriber");
    let data = vec![entry("ext/ibank/0/ch/2/trim", Value::Int(-6))];
    d.apply_write_result(&data, 200, String::new())
        .expect("success status applies the write");
    // (a) the cache holds the new value at that path,
    assert_eq!(d.get_value("ext/ibank/0/ch/2/trim"), Some(Value::Int(-6)));
    // (b) exactly one Internal update is observed.
    match rx.try_recv().expect("exactly one update") {
        Update::Internal(k, v) => {
            assert_eq!(k, "ext/ibank/0/ch/2/trim");
            assert_eq!(v, Value::Int(-6));
        }
        other => panic!("expected an internal update, got {:?}", other),
    }
    assert!(matches!(rx.try_recv(), Err(TryRecvError::Empty)));
}

#[test]
fn rejected_write_applies_nothing() {
    let mut d = connected_device();
    let mut rx = d.updates().unwrap();
    let data = vec![entry("ext/ibank/0/ch/2/trim", Value::Int(-6))];
    let err = d
        .apply_write_result(&data, 500, "device said no".to_string())
        .unwrap_err();
    assert_eq!(
        err,
        DeviceError::BadResponse(500, "device said no".to_string())
    );
    assert_eq!(d.get_value("ext/ibank/0/ch/2/trim"), None);
    assert!(matches!(rx.try_recv(), Err(TryRecvError::Empty)));
}

#[test]
fn write_with_204_also_succeeds() {
    let mut d = connected_device();
    let data = vec![entry("k", Value::Int(1))];
    d.apply_write_result(&data, 204, String::new()).unwrap();
    assert_eq!(d.get_value("k"), Some(Value::Int(1)));
}

#[test]
fn lagged_subscriber_does_not_block_the_bus_or_its_peers() {
    let mut d = connected_device();
    let mut slow = d.updates().unwrap();
    let mut steady = d.updates().unwrap();
    // Push well past the per-subscriber buffer, consuming only on one
    // side. The emitter never blocks; the steady subscriber sees every
    // update; the slow one is told it lagged and can then resume.
    let rounds = 100u32;
    for i in 0..rounds {
        let data = vec![entry(&format!("k/{}", i), Value::Int(i as i64))];
        d.apply_write_result(&data, 200, String::new()).unwrap();
        match steady.try_recv().expect("steady subscriber keeps up") {
            Update::Internal(k, _) => assert_eq!(k, format!("k/{}", i)),
            other => panic!("expected an internal update, got {:?}", other),
        }
    }
    match slow.try_recv() {
        Err(TryRecvError::Lagged(missed)) => assert!(missed > 0),
        other => panic!("expected a lagged signal, got {:?}", other),
    }
    // After the lagged signal the slow subscriber receives again.
    assert!(matches!(slow.try_recv(), Ok(Update::Internal(_, _))));
    // And the cache took every write.
    assert_eq!(d.get_value("k/99"), Some(Value::Int(99)));
}

#[test]
fn model_seeds_from_the_cache_and_follows_updates() {
    let mut d = connected_device();
    d.apply_poll_response(PollResponse::Changed(vec![
        entry("ext/ibank/0/name", Value::String("Mic In".to_string())),
        entry("ext/ibank/0/ch/2/trim", Value::Int(-6)),
        entry("ext/obank/1/name", Value::String("Out".to_string())),
    ]));
    d.build_banks();
    {
        let ib = d.input_banks().expect("input banks seeded");
        let b = ib.get(0).expect("bank 0");
        assert_eq!(b.name, Some("Mic In".to_string()));
        let ch = b.channels.get(2).expect("channel 2");
        assert_eq!(ch.trim, Some(Trim::Mono(TrimValue { trim: -6, trim_range: (0, 0) })));
        let ob = d.output_banks().expect("output banks seeded");
        assert_eq!(ob.get(1).expect("bank 1").name, Some("Out".to_string()));
    }
    // A live update flows through the same routine as seeding.
    d.apply_update(&Update::External(
        "ext/ibank/0/ch/2/trim".to_string(),
        Value::Int(3),
    ))
    .unwrap();
    // This client's own writes maintain the model too.
    d.apply_update(&Update::Internal(
        "ext/ibank/0/name".to_string(),
        Value::String("Renamed".to_string()),
    ))
    .unwrap();
    let ib = d.input_banks().unwrap();
    let b = ib.get(0).unwrap();
    assert_eq!(b.name, Some("Renamed".to_string()));
    assert_eq!(
        b.channels.get(2).unwrap().trim,
        Some(Trim::Mono(TrimValue { trim: 3, trim_range: (0, 0) }))
    );
}

#[test]
fn find_key_matches_substrings() {
    let mut d = connected_device();
    d.apply_poll_response(PollResponse::Changed(vec![
        entry("ext/ibank/0/name", Value::String("A".to_string())),
        entry("ext/obank/0/name", Value::String("B".to_string())),
        entry("avb/cfg", Value::Int(1)),
    ]));
    let mut hits = d
        .find_key("bank")
        .into_iter()
        .map(|(k, _)| k)
        .collect::<Vec<_>>();
    hits.sort();
    assert_eq!(hits, vec!["ext/ibank/0/name", "ext/obank/0/name"]);
    assert!(d.find_key("nowhere").is_empty());
}

#[test]
fn key_type_classifies_store_paths() {
    match KeyType::convert_from_str("ext/ibank/0/name").unwrap() {
        (KeyType::InputBank(0), segs) => assert_eq!(segs[1], "ibank"),
        other => panic!("expected input bank 0, got {:?}", other),
    }
    assert!(matches!(
        KeyType::convert_from_str("ext/obank/12/ch/0/trim").unwrap().0,
        KeyType::OutputBank(12)
    ));
    assert!(matches!(
        KeyType::convert_from_str("avb/0/cfg").unwrap().0,
        KeyType::AVB
    ));
    assert!(matches!(
        KeyType::convert_from_str("mix/chan/0").unwrap().0,
        KeyType::Mixer
    ));
    assert!(matches!(
        KeyType::convert_from_str("other/section/x").unwrap().0,
        KeyType::NotImplemented
    ));
    assert_eq!(
        KeyType::convert_from_str("uid").unwrap_err(),
        DeviceError::KeyParseError
    );
    assert_eq!(
        KeyType::convert_from_str("ext/ibank/zero").unwrap_err(),
        DeviceError::ParseIntError
    );
    assert!(matches!(
        KeyType::convert_from_str("ext/xbank/0").unwrap_err(),
        DeviceError::DefinitionParsingError(_)
    ));
}

#[test]
fn device_type_parses_advertisement_tags() {
    assert_eq!(DeviceType::from("netiodevice"), DeviceType::Device);
    assert_eq!(DeviceType::from("netiohost"), DeviceType::Host);
    assert_eq!(DeviceType::from("anything"), DeviceType::Unknown);
}

#[test]
fn update_any_strips_the_origin() {
    let u = Update::Internal("k".to_string(), Value::Int(1));
    assert_eq!(u.any(), ("k".to_string(), Value::Int(1)));
    let u = Update::External("j".to_string(), Value::Bool(true));
    assert_eq!(u.any(), ("j".to_string(), Value::Bool(true)));
}

#[test]
fn request_composition_nests_paths() {
    let outer = motu::Request {
        key: "ext/ibank/0/ch".to_string(),
        val: Value::Bool(false),
    };
    let inner = motu::Request {
        key: "2/trim".to_string(),
        val: Value::Int(-3),
    };
    let r = outer.add(inner);
    assert_eq!(r.key, "ext/ibank/0/ch/2/trim");
    assert_eq!(r.val, Value::Int(-3));
}
