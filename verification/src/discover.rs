//! Discovery decisions: turning the fields of an advertised service into a
//! device session. The network browsing itself (multicast DNS) is a
//! collaborator outside this crate; it hands in the service's name, host,
//! domain, port and text records as plain values.

use vstd::prelude::*;

use crate::device::{spec_device_type_of, Device, DeviceType};
use crate::text::{contains_seq, find_first, matches_at, str_eq};

verus! {

/// Errors from device discovery.
#[derive(Debug, Clone, PartialEq)]
pub enum DiscoveryError {
    /// The service browser failed, with its description.
    ZeroconfError(String),
    /// A text record was not valid text.
    UTF8CastError,
    /// The service advertised no host.
    NoHost,
    /// The service advertised no domain.
    NoDomain,
    /// A host endpoint's name carries no uid banner.
    NoUIDForHost(String),
    /// The service does not say what kind of endpoint it is.
    DeviceType,
    /// No service with the requested name appeared.
    NoDeviceWithNameDiscovered(String),
    /// No matching service appeared at all.
    NoDevice,
}

/// The first value stored under a key in a service's text records.
pub open spec fn spec_txt_lookup(
    txt: Seq<(Seq<char>, Seq<char>)>,
    key: Seq<char>,
) -> Option<Seq<char>>
    decreases txt.len(),
{
    if txt.len() == 0 {
        None
    } else if txt[0].0 == key {
        Some(txt[0].1)
    } else {
        spec_txt_lookup(txt.drop_first(), key)
    }
}

/// Find the first text record under a key.
fn txt_find<'a>(txt: &'a Vec<(String, String)>, key: &str) -> (r: Option<&'a String>)
    ensures
        match r {
            Some(v) => spec_txt_lookup(txt.deep_view(), key@) == Some(v@),
            None => spec_txt_lookup(txt.deep_view(), key@) is None,
        },
{
    let n = txt.len();
    let mut i: usize = 0;
    proof {
        assert(txt.deep_view().subrange(0, txt.deep_view().len() as int) =~= txt.deep_view());
    }
    #[verifier::loop_isolation(false)]
    while i < n
        invariant
            i <= n,
            n == txt@.len(),
            spec_txt_lookup(txt.deep_view(), key@) == spec_txt_lookup(
                txt.deep_view().subrange(i as int, txt.deep_view().len() as int),
                key@,
            ),
        decreases n - i,
    {
        let ghost rem = txt.deep_view().subrange(i as int, txt.deep_view().len() as int);
        proof {
            assert(rem[0] == txt.deep_view()[i as int]);
            assert(rem.drop_first() =~= txt.deep_view().subrange(
                i + 1,
                txt.deep_view().len() as int,
            ));
        }
        let entry = &txt[i];
        if str_eq(entry.0.as_str(), key) {
            return Some(&entry.1);
        }
        i += 1;
    }
    proof {
        assert(txt.deep_view().subrange(n as int, txt.deep_view().len() as int) =~= Seq::<(
            Seq<char>,
            Seq<char>,
        )>::empty());
    }
    None
}

/// The banner a host endpoint's advertised name carries before its uid.
pub open spec fn spec_host_banner() -> Seq<char> {
    "MOTU Pro Audio HTTP Host: "@
}

/// The uid a host endpoint's name carries: everything after the first
/// occurrence of the banner, or nothing when the banner does not occur.
pub fn host_uid_from_name(name: &str) -> (r: Option<String>)
    ensures
        match r {
            Some(uid) => exists|i: int|
                {
                    &&& #[trigger] matches_at(name@, spec_host_banner(), i)
                    &&& forall|j: int| 0 <= j < i ==> !matches_at(name@, spec_host_banner(), j)
                    &&& uid@ == name@.subrange(
                        i + spec_host_banner().len(),
                        name@.len() as int,
                    )
                },
            None => !contains_seq(name@, spec_host_banner()),
        },
{
    let banner = "MOTU Pro Audio HTTP Host: ";
    proof {
        assert(banner@ == spec_host_banner());
    }
    match find_first(name, banner) {
        Some(i) => {
            let blen = banner.unicode_len();
            let len = name.unicode_len();
            let uid = name.substring_char(i + blen, len).to_owned();
            proof {
                assert(matches_at(name@, spec_host_banner(), i as int));
                assert(uid@ == name@.subrange(
                    i + spec_host_banner().len(),
                    name@.len() as int,
                ));
            }
            Some(uid)
        },
        None => None,
    }
}

/// The fixed uid recorded for endpoints of unknown kind.
pub open spec fn spec_unknown_uid() -> Seq<char> {
    "UNKNOWN (this is a bug)"@
}

/// Decide what device a resolved advertisement describes. The
/// `motu.mdns.type` text record names the endpoint kind; a host's uid
/// comes from the banner in its advertised name, a device's from its
/// `uid` text record; the session's hostname joins the advertised host
/// and domain with a dot.
pub fn new_from_mdns(
    name: &str,
    host: Option<&String>,
    domain: Option<&String>,
    port: u16,
    txt: &Vec<(String, String)>,
) -> (r: Result<Device, DiscoveryError>)
    ensures
        ({
            let txtv = txt.deep_view();
            let mtype = spec_txt_lookup(txtv, "motu.mdns.type"@);
            match r {
                Ok(d) => {
                    &&& mtype is Some
                    &&& host is Some
                    &&& domain is Some
                    &&& d@.name == name@
                    &&& d@.port == port
                    &&& d@.hostname == host.unwrap()@ + seq!['.'] + domain.unwrap()@
                    &&& d@.device_type == spec_device_type_of(mtype.unwrap())
                    &&& !d@.connected
                    &&& d@.cache == crate::cache::spec_empty_cache()
                    &&& d@.bus is None
                    &&& match d@.device_type {
                        DeviceType::Host => exists|i: int|
                            {
                                &&& #[trigger] matches_at(name@, spec_host_banner(), i)
                                &&& d@.uid == name@.subrange(
                                    i + spec_host_banner().len(),
                                    name@.len() as int,
                                )
                            },
                        DeviceType::Device => spec_txt_lookup(txtv, "uid"@) == Some(d@.uid),
                        DeviceType::Unknown => d@.uid == spec_unknown_uid(),
                    }
                },
                Err(e) => match e {
                    DiscoveryError::DeviceType => mtype is None || (spec_device_type_of(
                        mtype.unwrap(),
                    ) == DeviceType::Device && spec_txt_lookup(txtv, "uid"@) is None),
                    DiscoveryError::NoUIDForHost(s) => {
                        &&& s@ == name@
                        &&& mtype is Some
                        &&& spec_device_type_of(mtype.unwrap()) == DeviceType::Host
                        &&& !contains_seq(name@, spec_host_banner())
                    },
                    DiscoveryError::NoHost => host is None,
                    DiscoveryError::NoDomain => host is Some && domain is None,
                    _ => false,
                },
            }
        }),
{
    let mtype = match txt_find(txt, "motu.mdns.type") {
        Some(v) => v,
        None => {
            return Err(DiscoveryError::DeviceType);
        },
    };
    let device_type = DeviceType::from(mtype.as_str());
    let uid: String = match device_type {
        DeviceType::Host => match host_uid_from_name(name) {
            Some(u) => u,
            None => {
                return Err(DiscoveryError::NoUIDForHost(name.to_owned()));
            },
        },
        DeviceType::Device => match txt_find(txt, "uid") {
            Some(u) => u.clone(),
            None => {
                return Err(DiscoveryError::DeviceType);
            },
        },
        DeviceType::Unknown => "UNKNOWN (this is a bug)".to_owned(),
    };
    let host = match host {
        Some(h) => h,
        None => {
            return Err(DiscoveryError::NoHost);
        },
    };
    let domain = match domain {
        Some(d) => d,
        None => {
            return Err(DiscoveryError::NoDomain);
        },
    };
    let mut hostname = host.clone();
    hostname.append(".");
    hostname.append(domain.as_str());
    proof {
        reveal_strlit(".");
        assert(hostname@ =~= host@ + seq!['.'] + domain@);
    }
    Ok(Device::new(name, hostname.as_str(), port, uid.as_str(), device_type))
}

} // verus!
