//! Behavior of the human-readable summaries and remaining conveniences.

use motu::device::{Device, DeviceType};
use motu::extchannel::{ChannelBank, ChannelBankType, ExtChannel, TrimValue};
use motu::value::Value;

#[test]
fn device_type_text() {
    assert_eq!(DeviceType::Host.describe(), "Host");
    assert_eq!(DeviceType::Device.describe(), "Device");
    assert_eq!(DeviceType::Unknown.describe(), "Unknown");
}

#[test]
fn device_summary_line() {
    let d = Device::new("Studio", "studio.local", 8080, "u", DeviceType::Device);
    assert_eq!(
        d.describe(),
        "Name: \"Studio\"  Type: Device  Hostname: studio.local:8080"
    );
}

#[test]
fn devices_compare_by_identity_not_state() {
    let a = Device::new("S", "h.local", 1, "uid-a", DeviceType::Host);
    let mut b = Device::new("S", "h.local", 1, "uid-b", DeviceType::Host);
    // Differing uid and connection state do not matter for equality.
    b.begin_connect().unwrap();
    assert!(a == b);
    let c = Device::new("S", "other.local", 1, "uid-a", DeviceType::Host);
    assert!(a != c);
}

#[test]
fn channel_summary_shows_present_attributes() {
    let mut ch = ExtChannel::empty(2);
    assert_eq!(ch.describe(), ": ");
    ch.default_name = Some("In 3".to_string());
    ch.src = Some("main:0".to_string());
    ch.set_mono_trim(-6);
    ch.set_mono_trim_range((-96, 22));
    ch.pad = Some(true);
    ch.phantom_power = Some(false);
    assert_eq!(
        ch.describe(),
        "In 3:  Source: main:0 Trim: -6, Range: -96:22 Phantom Power: false Pad: true"
    );
    // The user name wins over the default name.
    ch.name = Some("Vocal".to_string());
    assert!(ch.describe().starts_with("Vocal: "));
}

#[test]
fn bank_summary_lists_channels() {
    let mut b = ChannelBank::empty(0, ChannelBankType::Input);
    b.num_channels = 2;
    b.currenty_active_channels = 1;
    b.max_channels = 4;
    assert_eq!(
        b.describe(),
        "0:-  Channels: 2, Active Channels: 1, Max Channels: 4\n"
    );
    b.name = Some("Mic In".to_string());
    let key = vec!["ch".to_string(), "1".to_string(), "name".to_string()];
    b.update(&key, 0, &Value::String("Lead".to_string())).unwrap();
    assert_eq!(
        b.describe(),
        "0: Mic In,  Channels: 2, Active Channels: 1, Max Channels: 4\n- 1: Lead: \n"
    );
}

#[test]
fn defaults() {
    assert_eq!(ChannelBankType::default(), ChannelBankType::Input);
    let t = TrimValue::default();
    assert_eq!(t.trim, 0);
    assert_eq!(t.trim_range, (0, 0));
}
