//! Behavior of the discovery decisions: classifying advertised services
//! and extracting their identity.

use motu::device::DeviceType;
use motu::discover::{host_uid_from_name, new_from_mdns, DiscoveryError};

fn txt(pairs: &[(&str, &str)]) -> Vec<(String, String)> {
    pairs
        .iter()
        .map(|(k, v)| (k.to_string(), v.to_string()))
        .collect()
}

#[test]
fn host_uid_comes_from_the_name_banner() {
    assert_eq!(
        host_uid_from_name("MOTU Pro Audio HTTP Host: 0001f2abcd"),
        Some("0001f2abcd".to_string())
    );
    assert_eq!(host_uid_from_name("My UltraLite"), None);
}

#[test]
fn device_endpoint_takes_uid_from_txt_records() {
    let host = "mk4".to_string();
    let domain = "local".to_string();
    let d = new_from_mdns(
        "UltraLite-mk4",
        Some(&host),
        Some(&domain),
        1280,
        &txt(&[("motu.mdns.type", "netiodevice"), ("uid", "0001f2abcd")]),
    )
    .expect("a complete advertisement yields a device");
    assert_eq!(d.name(), "UltraLite-mk4");
    assert_eq!(d.hostname(), "mk4.local");
    assert_eq!(d.port(), 1280);
    assert_eq!(d.uid(), "0001f2abcd");
    assert_eq!(d.device_type(), DeviceType::Device);
    assert!(!d.connected());
}

#[test]
fn host_endpoint_takes_uid_from_its_name() {
    let host = "hub".to_string();
    let domain = "local".to_string();
    let d = new_from_mdns(
        "MOTU Pro Audio HTTP Host: cafe0001",
        Some(&host),
        Some(&domain),
        1280,
        &txt(&[("motu.mdns.type", "netiohost")]),
    )
    .unwrap();
    assert_eq!(d.device_type(), DeviceType::Host);
    assert_eq!(d.uid(), "cafe0001");
}

#[test]
fn unknown_endpoint_kind_gets_the_placeholder_uid() {
    let host = "x".to_string();
    let domain = "local".to_string();
    let d = new_from_mdns(
        "Printer",
        Some(&host),
        Some(&domain),
        9100,
        &txt(&[("motu.mdns.type", "laserjet")]),
    )
    .unwrap();
    assert_eq!(d.device_type(), DeviceType::Unknown);
    assert_eq!(d.uid(), "UNKNOWN (this is a bug)");
}

#[test]
fn missing_type_record_is_an_error() {
    let host = "x".to_string();
    let domain = "local".to_string();
    let r = new_from_mdns("Printer", Some(&host), Some(&domain), 9100, &txt(&[]));
    assert_eq!(r.unwrap_err(), DiscoveryError::DeviceType);
}

#[test]
fn device_without_uid_record_is_an_error() {
    let host = "x".to_string();
    let domain = "local".to_string();
    let r = new_from_mdns(
        "UltraLite",
        Some(&host),
        Some(&domain),
        1280,
        &txt(&[("motu.mdns.type", "netiodevice")]),
    );
    assert_eq!(r.unwrap_err(), DiscoveryError::DeviceType);
}

#[test]
fn host_without_banner_is_an_error() {
    let host = "x".to_string();
    let domain = "local".to_string();
    let r = new_from_mdns(
        "Nameless",
        Some(&host),
        Some(&domain),
        1280,
        &txt(&[("motu.mdns.type", "netiohost")]),
    );
    assert_eq!(
        r.unwrap_err(),
        DiscoveryError::NoUIDForHost("Nameless".to_string())
    );
}

#[test]
fn missing_host_and_domain_are_errors() {
    let domain = "local".to_string();
    let host = "x".to_string();
    let records = txt(&[("motu.mdns.type", "netiodevice"), ("uid", "u")]);
    let r = new_from_mdns("D", None, Some(&domain), 1, &records);
    assert_eq!(r.unwrap_err(), DiscoveryError::NoHost);
    let r = new_from_mdns("D", Some(&host), None, 1, &records);
    assert_eq!(r.unwrap_err(), DiscoveryError::NoDomain);
}
