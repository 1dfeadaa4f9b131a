//! The device session core: connection state, the mirror of the remote
//! store, the update bus, the hierarchical model of both directions'
//! banks, and the state transitions of the poll and write paths.
//!
//! Network transport lives outside this crate. The poll loop hands poll
//! outcomes in; the write path hands response statuses in; every decision
//! those outcomes drive is made and verified here.

use vstd::prelude::*;

use crate::bus::{spec_update_parts, Update, UpdateBus, UpdateView};
use crate::cache::FlatCache;
use crate::extchannel::{
    spec_banks_model, spec_banks_wf, spec_project, spec_route, BankModel, ChannelBank,
    ChannelBankType, ParseError,
};
use crate::index_map::IndexMap;
use crate::text::{contains_seq, is_u32_str, parse_u32, split_seq, split_str, str_contains, str_eq,
    u_dec_str, u32_to_string, dec_int_val};
use crate::value::{spec_decode, Value, ValueError, ValueView};

verus! {

/// What kind of endpoint a discovered service is.
#[derive(Debug, Clone, Copy, PartialEq, Eq, Structural)]
pub enum DeviceType {
    Host,
    Device,
    Unknown,
}

/// Which endpoint kind an advertisement tag names.
pub open spec fn spec_device_type_of(s: Seq<char>) -> DeviceType {
    if s == "netiodevice"@ {
        DeviceType::Device
    } else if s == "netiohost"@ {
        DeviceType::Host
    } else {
        DeviceType::Unknown
    }
}

impl From<&str> for DeviceType {
    fn from(value: &str) -> (r: Self) {
        if str_eq(value, "netiodevice") {
            DeviceType::Device
        } else if str_eq(value, "netiohost") {
            DeviceType::Host
        } else {
            DeviceType::Unknown
        }
    }
}

impl vstd::std_specs::convert::FromSpecImpl<&str> for DeviceType {
    open spec fn obeys_from_spec() -> bool {
        true
    }

    open spec fn from_spec(value: &str) -> Self {
        spec_device_type_of(value@)
    }
}

/// Errors surfaced by the session core and its transport wrappers.
#[derive(Debug, Clone, PartialEq)]
pub enum DeviceError {
    /// A transport-level failure, with its description.
    RequestError(String),
    /// The wire envelope could not be produced or read.
    SerializationError(String),
    /// The device did not answer the health probe.
    CouldNotConnect(String),
    /// The model or the bus was asked for before a successful connect.
    NotConnected,
    /// A value failed to decode.
    ValueParsingError(ValueError),
    /// A flat entry failed to route into the model.
    DefinitionParsingError(ParseError),
    /// The device rejected a write: the status and the response body.
    BadResponse(u16, String),
    /// The bank tables have not been built yet.
    ChannelBanksNotInitalized,
    /// A store key was too short to route.
    KeyParseError,
    /// A path segment that must be an integer is not one.
    ParseIntError,
    /// `connect` was called on an already connected session.
    AlreadyConnected,
}

/// Which part of the store a key addresses.
#[derive(Debug, Clone, Copy, PartialEq, Eq, Structural)]
pub enum KeyType {
    InputBank(u32),
    OutputBank(u32),
    Mixer,
    AVB,
    NotImplemented,
}

/// How a store key routes: `ext/<ibank|obank>/<index>/...` addresses a
/// bank, `avb/...` and `mix/...` their sections, anything else with at
/// least three segments is known-but-unhandled, and shorter keys, keys
/// with an unparseable bank index, and unknown bank tags do not route.
pub open spec fn spec_key_type(path: Seq<char>) -> Option<KeyType> {
    let segs = split_seq(path, '/');
    if segs.len() > 2 {
        if segs[0] == "ext"@ {
            if !is_u32_str(segs[2]) {
                None
            } else if segs[1] == ChannelBankType::Input.spec_tag() {
                Some(KeyType::InputBank(dec_int_val(segs[2]) as u32))
            } else if segs[1] == ChannelBankType::Output.spec_tag() {
                Some(KeyType::OutputBank(dec_int_val(segs[2]) as u32))
            } else {
                None
            }
        } else if segs[0] == "avb"@ {
            Some(KeyType::AVB)
        } else if segs[0] == "mix"@ {
            Some(KeyType::Mixer)
        } else {
            Some(KeyType::NotImplemented)
        }
    } else {
        None
    }
}

impl KeyType {
    /// Classify a store key and hand back its segments.
    pub fn convert_from_str(key: &str) -> (r: Result<(KeyType, Vec<String>), DeviceError>)
        ensures
            match r {
                Ok(p) => {
                    &&& spec_key_type(key@) == Some(p.0)
                    &&& p.1.deep_view() == split_seq(key@, '/')
                },
                Err(e) => {
                    let segs = split_seq(key@, '/');
                    &&& spec_key_type(key@) is None
                    &&& match e {
                        DeviceError::KeyParseError => segs.len() <= 2,
                        DeviceError::ParseIntError => segs.len() > 2 && segs[0] == "ext"@
                            && !is_u32_str(segs[2]),
                        DeviceError::DefinitionParsingError(
                            ParseError::NotAbleToParseBankType(t),
                        ) => {
                            &&& segs.len() > 2
                            &&& segs[0] == "ext"@
                            &&& is_u32_str(segs[2])
                            &&& t@ == segs[1]
                        },
                        _ => false,
                    }
                },
            },
    {
        let segs = split_str(key, '/');
        if segs.len() > 2 {
            proof {
                reveal_strlit("ext");
                reveal_strlit("avb");
                reveal_strlit("mix");
            }
            if str_eq(segs[0].as_str(), "ext") {
                let index = match parse_u32(segs[2].as_str()) {
                    Some(v) => v,
                    None => {
                        return Err(DeviceError::ParseIntError);
                    },
                };
                match crate::extchannel::ChannelBankType::try_from(segs[1].as_str()) {
                    Ok(ChannelBankType::Input) => Ok((KeyType::InputBank(index), segs)),
                    Ok(ChannelBankType::Output) => Ok((KeyType::OutputBank(index), segs)),
                    Err(e) => Err(DeviceError::DefinitionParsingError(e)),
                }
            } else if str_eq(segs[0].as_str(), "avb") {
                Ok((KeyType::AVB, segs))
            } else if str_eq(segs[0].as_str(), "mix") {
                Ok((KeyType::Mixer, segs))
            } else {
                Ok((KeyType::NotImplemented, segs))
            }
        } else {
            Err(DeviceError::KeyParseError)
        }
    }
}

/// How many updates the bus buffers per subscriber before a slow one is
/// handed a lagged signal.
pub const BUS_CAPACITY: usize = 64;

/// The outcome of one poll cycle, as the transport hands it in: the store
/// was unchanged since the validator, or it answered with fresh entries of
/// raw (still string-encoded) values.
#[derive(Debug)]
pub enum PollResponse {
    NotModified,
    Changed(Vec<(String, Value)>),
}

/// The mathematical shadow of a `Device`.
pub struct DeviceModel {
    pub name: Seq<char>,
    pub hostname: Seq<char>,
    pub port: u16,
    pub uid: Seq<char>,
    pub device_type: DeviceType,
    pub connected: bool,
    pub url: Seq<char>,
    pub health: Seq<char>,
    pub client_id: u32,
    pub cache: Map<Seq<char>, ValueView>,
    pub bus: Option<Seq<UpdateView>>,
    pub input_banks: Option<Map<u32, BankModel>>,
    pub output_banks: Option<Map<u32, BankModel>>,
}

/// One session against one device: its identity, the flat cache, the
/// update bus once connected, and the hierarchical model once seeded.
#[derive(Debug)]
pub struct Device {
    name: String,
    hostname: String,
    port: u16,
    uid: String,
    device_type: DeviceType,
    connected: bool,
    url: String,
    health: String,
    client_id: u32,
    cache: FlatCache,
    updates: Option<UpdateBus>,
    input_banks: Option<IndexMap<ChannelBank>>,
    output_banks: Option<IndexMap<ChannelBank>>,
}

impl View for Device {
    type V = DeviceModel;

    closed spec fn view(&self) -> DeviceModel {
        DeviceModel {
            name: self.name@,
            hostname: self.hostname@,
            port: self.port,
            uid: self.uid@,
            device_type: self.device_type,
            connected: self.connected,
            url: self.url@,
            health: self.health@,
            client_id: self.client_id,
            cache: self.cache@,
            bus: match &self.updates {
                Some(b) => Some(b@),
                None => None,
            },
            input_banks: match &self.input_banks {
                Some(m) => Some(spec_banks_model(m@)),
                None => None,
            },
            output_banks: match &self.output_banks {
                Some(m) => Some(spec_banks_model(m@)),
                None => None,
            },
        }
    }
}

/// The store endpoint of a device reachable at a host and port.
pub open spec fn spec_device_url(hostname: Seq<char>, port: u16) -> Seq<char> {
    "http://"@ + hostname + seq![':'] + u_dec_str(port as int) + "/datastore"@
}

/// The health-probe endpoint of the same device.
pub open spec fn spec_health_url(hostname: Seq<char>, port: u16) -> Seq<char> {
    "http://"@ + hostname + seq![':'] + u_dec_str(port as int) + "/apiversion"@
}

/// The cache after a batch of successful writes lands: every written path
/// holds its written value, in order, last write winning.
pub open spec fn spec_cache_after_writes(
    cache: Map<Seq<char>, ValueView>,
    data: Seq<(Seq<char>, ValueView)>,
) -> Map<Seq<char>, ValueView>
    decreases data.len(),
{
    if data.len() == 0 {
        cache
    } else {
        spec_cache_after_writes(cache.insert(data[0].0, data[0].1), data.drop_first())
    }
}

/// The emission history after a batch of successful writes: exactly one
/// `Internal` update per written pair, in write order.
pub open spec fn spec_log_after_writes(
    log: Seq<UpdateView>,
    data: Seq<(Seq<char>, ValueView)>,
) -> Seq<UpdateView>
    decreases data.len(),
{
    if data.len() == 0 {
        log
    } else {
        spec_log_after_writes(
            log.push(UpdateView::Internal(data[0].0, data[0].1)),
            data.drop_first(),
        )
    }
}

/// The cache after one poll response's entries are decoded and applied:
/// each entry that decodes lands under its path; entries that fail to
/// decode are skipped and the rest still land.
pub open spec fn spec_cache_after_poll(
    cache: Map<Seq<char>, ValueView>,
    entries: Seq<(Seq<char>, ValueView)>,
) -> Map<Seq<char>, ValueView>
    decreases entries.len(),
{
    if entries.len() == 0 {
        cache
    } else {
        match spec_decode(entries[0].1, entries[0].0) {
            Ok(v) => spec_cache_after_poll(cache.insert(entries[0].0, v), entries.drop_first()),
            Err(_) => spec_cache_after_poll(cache, entries.drop_first()),
        }
    }
}

/// The emission history after one poll response: one `External` update per
/// entry that decoded, in response order; skipped entries emit nothing.
pub open spec fn spec_log_after_poll(
    log: Seq<UpdateView>,
    entries: Seq<(Seq<char>, ValueView)>,
) -> Seq<UpdateView>
    decreases entries.len(),
{
    if entries.len() == 0 {
        log
    } else {
        match spec_decode(entries[0].1, entries[0].0) {
            Ok(v) => spec_log_after_poll(
                log.push(UpdateView::External(entries[0].0, v)),
                entries.drop_first(),
            ),
            Err(_) => spec_log_after_poll(log, entries.drop_first()),
        }
    }
}

proof fn lemma_write_fold_snoc(
    cache: Map<Seq<char>, ValueView>,
    log: Seq<UpdateView>,
    data: Seq<(Seq<char>, ValueView)>,
    e: (Seq<char>, ValueView),
)
    ensures
        spec_cache_after_writes(cache, data.push(e)) == spec_cache_after_writes(
            cache,
            data,
        ).insert(e.0, e.1),
        spec_log_after_writes(log, data.push(e)) == spec_log_after_writes(log, data).push(
            UpdateView::Internal(e.0, e.1),
        ),
    decreases data.len(),
{
    if data.len() == 0 {
        assert(data.push(e)[0] == e);
        assert(data.push(e).drop_first() =~= data);
        assert(spec_cache_after_writes(cache.insert(e.0, e.1), data) == cache.insert(e.0, e.1));
        assert(spec_log_after_writes(log.push(UpdateView::Internal(e.0, e.1)), data) == log.push(
            UpdateView::Internal(e.0, e.1),
        ));
    } else {
        assert(data.push(e)[0] == data[0]);
        assert(data.push(e).drop_first() =~= data.drop_first().push(e));
        lemma_write_fold_snoc(
            cache.insert(data[0].0, data[0].1),
            log.push(UpdateView::Internal(data[0].0, data[0].1)),
            data.drop_first(),
            e,
        );
    }
}

proof fn lemma_poll_fold_snoc(
    cache: Map<Seq<char>, ValueView>,
    log: Seq<UpdateView>,
    entries: Seq<(Seq<char>, ValueView)>,
    e: (Seq<char>, ValueView),
)
    ensures
        spec_cache_after_poll(cache, entries.push(e)) == (match spec_decode(e.1, e.0) {
            Ok(v) => spec_cache_after_poll(cache, entries).insert(e.0, v),
            Err(_) => spec_cache_after_poll(cache, entries),
        }),
        spec_log_after_poll(log, entries.push(e)) == (match spec_decode(e.1, e.0) {
            Ok(v) => spec_log_after_poll(log, entries).push(UpdateView::External(e.0, v)),
            Err(_) => spec_log_after_poll(log, entries),
        }),
    decreases entries.len(),
{
    if entries.len() == 0 {
        assert(entries.push(e)[0] == e);
        assert(entries.push(e).drop_first() =~= entries);
        match spec_decode(e.1, e.0) {
            Ok(v) => {
                assert(spec_cache_after_poll(cache.insert(e.0, v), entries) == cache.insert(
                    e.0,
                    v,
                ));
                assert(spec_log_after_poll(log.push(UpdateView::External(e.0, v)), entries)
                    == log.push(UpdateView::External(e.0, v)));
            },
            Err(_) => {
                assert(spec_cache_after_poll(cache, entries) == cache);
                assert(spec_log_after_poll(log, entries) == log);
            },
        }
    } else {
        assert(entries.push(e)[0] == entries[0]);
        assert(entries.push(e).drop_first() =~= entries.drop_first().push(e));
        match spec_decode(entries[0].1, entries[0].0) {
            Ok(v) => {
                lemma_poll_fold_snoc(
                    cache.insert(entries[0].0, v),
                    log.push(UpdateView::External(entries[0].0, v)),
                    entries.drop_first(),
                    e,
                );
            },
            Err(_) => {
                lemma_poll_fold_snoc(cache, log, entries.drop_first(), e);
            },
        }
    }
}

/// A possible enumeration of a cache: each pair stored, no path twice,
/// every stored path present. The order is whatever the snapshot produced.
pub open spec fn spec_enumerates(
    m: Map<Seq<char>, ValueView>,
    entries: Seq<(Seq<char>, ValueView)>,
) -> bool {
    &&& forall|i: int|
        0 <= i < entries.len() ==> m.contains_key((#[trigger] entries[i]).0) && m[entries[i].0]
            == entries[i].1
    &&& forall|i: int, j: int|
        0 <= i < j < entries.len() ==> (#[trigger] entries[i]).0 != (#[trigger] entries[j]).0
    &&& forall|k: Seq<char>|
        m.contains_key(k) ==> exists|i: int| 0 <= i < entries.len() && (#[trigger] entries[i]).0
            == k
}

impl Device {
    /// Both bank tables, when present, keep their channel tables well
    /// formed.
    pub closed spec fn wf(&self) -> bool {
        &&& match &self.input_banks {
            Some(m) => m.wf() && spec_banks_wf(*m),
            None => true,
        }
        &&& match &self.output_banks {
            Some(m) => m.wf() && spec_banks_wf(*m),
            None => true,
        }
    }

    /// A fresh, unconnected session against the device at
    /// `hostname:port`. The cache starts empty; the bus and the bank
    /// tables do not exist until `connect`. The client id is drawn at
    /// random so the device can tell this client's writes apart.
    pub fn new(name: &str, hostname: &str, port: u16, uid: &str, device_type: DeviceType) -> (r:
        Device)
        ensures
            r@.name == name@,
            r@.hostname == hostname@,
            r@.port == port,
            r@.uid == uid@,
            r@.device_type == device_type,
            !r@.connected,
            r@.url == spec_device_url(hostname@, port),
            r@.health == spec_health_url(hostname@, port),
            r@.cache == Map::<Seq<char>, ValueView>::empty(),
            r@.bus is None,
            r@.input_banks is None,
            r@.output_banks is None,
            r.wf(),
    {
        let mut url = String::new();
        url.append("http://");
        url.append(hostname);
        url.append(":");
        let port_str = u32_to_string(port as u32);
        url.append(port_str.as_str());
        let mut health = url.clone();
        url.append("/datastore");
        health.append("/apiversion");
        proof {
            reveal_strlit("http://");
            reveal_strlit(":");
            reveal_strlit("/datastore");
            reveal_strlit("/apiversion");
            assert(url@ =~= spec_device_url(hostname@, port));
            assert(health@ =~= spec_health_url(hostname@, port));
        }
        Device {
            name: name.to_owned(),
            hostname: hostname.to_owned(),
            port,
            uid: uid.to_owned(),
            device_type,
            connected: false,
            url,
            health,
            client_id: random_client_id(),
            cache: FlatCache::new(),
            updates: None,
            input_banks: None,
            output_banks: None,
        }
    }

    /// The advertised name of the device.
    pub fn name(&self) -> (r: String)
        ensures
            r@ == self@.name,
    {
        self.name.clone()
    }

    /// Whether the endpoint is a device or a host.
    pub fn device_type(&self) -> (r: DeviceType)
        ensures
            r == self@.device_type,
    {
        self.device_type
    }

    /// The host the device answers at.
    pub fn hostname(&self) -> (r: String)
        ensures
            r@ == self@.hostname,
    {
        self.hostname.clone()
    }

    /// The port the device answers at.
    pub fn port(&self) -> (r: u16)
        ensures
            r == self@.port,
    {
        self.port
    }

    /// The unique identifier the device advertised.
    pub fn uid(&self) -> (r: &str)
        ensures
            r@ == self@.uid,
    {
        self.uid.as_str()
    }

    /// The store URL this session talks to.
    pub fn url(&self) -> (r: &str)
        ensures
            r@ == self@.url,
    {
        self.url.as_str()
    }

    /// The health-probe URL this session checks before connecting.
    pub fn health_url(&self) -> (r: &str)
        ensures
            r@ == self@.health,
    {
        self.health.as_str()
    }

    /// The client id this session tags its requests with.
    pub fn client_id(&self) -> (r: u32)
        ensures
            r == self@.client_id,
    {
        self.client_id
    }

    /// Whether `connect` has succeeded.
    pub fn connected(&self) -> (r: bool)
        ensures
            r == self@.connected,
    {
        self.connected
    }

    /// The flat cache: the local mirror of the device's store.
    pub fn get(&self) -> (r: &FlatCache)
        ensures
            r@ == self@.cache,
    {
        &self.cache
    }

    /// The value mirrored under a store path, if any.
    pub fn get_value(&self, key: &str) -> (r: Option<Value>)
        ensures
            match r {
                Some(v) => self@.cache.contains_key(key@) && v@ == self@.cache[key@],
                None => !self@.cache.contains_key(key@),
            },
    {
        self.cache.get(key)
    }

    /// Every mirrored entry whose path contains `key`, in snapshot order.
    pub fn find_key(&self, key: &str) -> (r: Vec<(String, Value)>)
        ensures
            forall|i: int|
                0 <= i < r@.len() ==> self@.cache.contains_key((#[trigger] r@[i]).0@)
                    && self@.cache[r@[i].0@] == r@[i].1@ && contains_seq(r@[i].0@, key@),
            forall|i: int, j: int|
                0 <= i < j < r@.len() ==> (#[trigger] r@[i]).0@ != (#[trigger] r@[j]).0@,
            forall|k: Seq<char>|
                self@.cache.contains_key(k) && contains_seq(k, key@) ==> exists|i: int|
                    0 <= i < r@.len() && (#[trigger] r@[i]).0@ == k,
    {
        let snap = self.cache.snapshot();
        let mut out: Vec<(String, Value)> = Vec::new();
        let n = snap.len();
        let mut i: usize = 0;
        #[verifier::loop_isolation(false)]
        while i < n
            invariant
                i <= n,
                n == snap@.len(),
                forall|a: int|
                    0 <= a < out@.len() ==> self@.cache.contains_key((#[trigger] out@[a]).0@)
                        && self@.cache[out@[a].0@] == out@[a].1@ && contains_seq(out@[a].0@, key@),
                forall|a: int, b: int|
                    0 <= a < b < out@.len() ==> (#[trigger] out@[a]).0@ != (#[trigger] out@[b]).0@,
                forall|a: int|
                    0 <= a < out@.len() ==> exists|b: int|
                        0 <= b < i && (#[trigger] out@[a]).0@ == snap@[b].0@,
                forall|b: int|
                    0 <= b < i && contains_seq((#[trigger] snap@[b]).0@, key@) ==> exists|a: int|
                        0 <= a < out@.len() && (#[trigger] out@[a]).0@ == snap@[b].0@,
            decreases n - i,
        {
            let entry = &snap[i];
            let ghost out0 = out@;
            if str_contains(entry.0.as_str(), key) {
                out.push((entry.0.clone(), entry.1.duplicate()));
                proof {
                    assert forall|b: int|
                        0 <= b < i + 1 && contains_seq((#[trigger] snap@[b]).0@, key@)
                            implies exists|a: int|
                            0 <= a < out@.len() && (#[trigger] out@[a]).0@ == snap@[b].0@ by {
                        if b < i {
                            let a = choose|a: int|
                                0 <= a < out0.len() && (#[trigger] out0[a]).0@ == snap@[b].0@;
                            assert(out@[a].0@ == snap@[b].0@);
                        } else {
                            assert(out@[out@.len() - 1].0@ == snap@[b].0@);
                        }
                    }
                }
            } else {
                proof {
                    assert(!contains_seq(snap@[i as int].0@, key@));
                }
            }
            i += 1;
        }
        out
    }

    /// Subscribe to the update bus. Subscribing is an error until a
    /// connect has succeeded.
    pub fn updates(&self) -> (r: Result<tokio::sync::broadcast::Receiver<Update>, DeviceError>)
        ensures
            (r is Ok) == (self@.connected && self@.bus is Some),
            r matches Err(e) ==> e == DeviceError::NotConnected,
    {
        if self.connected {
            match &self.updates {
                Some(bus) => Ok(bus.subscribe()),
                None => Err(DeviceError::NotConnected),
            }
        } else {
            Err(DeviceError::NotConnected)
        }
    }

    /// The input bank table, once the model has been seeded.
    pub fn input_banks(&self) -> (r: Result<&IndexMap<ChannelBank>, DeviceError>)
        ensures
            match r {
                Ok(m) => self@.input_banks == Some(spec_banks_model(m@)),
                Err(e) => self@.input_banks is None && e
                    == DeviceError::ChannelBanksNotInitalized,
            },
    {
        match &self.input_banks {
            Some(m) => Ok(m),
            None => Err(DeviceError::ChannelBanksNotInitalized),
        }
    }

    /// The output bank table, once the model has been seeded.
    pub fn output_banks(&self) -> (r: Result<&IndexMap<ChannelBank>, DeviceError>)
        ensures
            match r {
                Ok(m) => self@.output_banks == Some(spec_banks_model(m@)),
                Err(e) => self@.output_banks is None && e
                    == DeviceError::ChannelBanksNotInitalized,
            },
    {
        match &self.output_banks {
            Some(m) => Ok(m),
            None => Err(DeviceError::ChannelBanksNotInitalized),
        }
    }

    /// Open the session state: create the update bus and mark the session
    /// connected. Connecting twice without disconnecting is rejected. The
    /// transport's health probe and the poll loop live with the caller;
    /// this is the state transition a successful probe permits.
    pub fn begin_connect(&mut self) -> (r: Result<(), DeviceError>)
        ensures
            match r {
                Ok(()) => {
                    &&& !old(self)@.connected
                    &&& final(self)@ == (DeviceModel {
                        connected: true,
                        bus: Some(Seq::<UpdateView>::empty()),
                        ..old(self)@
                    })
                    &&& final(self).wf() == old(self).wf()
                },
                Err(e) => {
                    &&& old(self)@.connected
                    &&& e == DeviceError::AlreadyConnected
                    &&& *final(self) == *old(self)
                },
            },
    {
        if self.connected {
            return Err(DeviceError::AlreadyConnected);
        }
        self.updates = Some(UpdateBus::new(BUS_CAPACITY));
        self.connected = true;
        Ok(())
    }

    /// Apply one poll cycle's outcome. A `NotModified` answer leaves the
    /// cache untouched and emits nothing. A changed answer decodes each
    /// entry under its path, mirrors it, and emits one `External` update
    /// per decoded entry, in response order; entries that fail to decode
    /// are skipped without stopping the rest.
    pub fn apply_poll_response(&mut self, resp: PollResponse)
        requires
            old(self)@.bus is Some,
            old(self).wf(),
        ensures
            final(self).wf(),
            match resp {
                PollResponse::NotModified => final(self)@ == old(self)@,
                PollResponse::Changed(entries) => final(self)@ == (DeviceModel {
                    cache: spec_cache_after_poll(old(self)@.cache, entries.deep_view()),
                    bus: Some(
                        spec_log_after_poll(old(self)@.bus.unwrap(), entries.deep_view()),
                    ),
                    ..old(self)@
                }),
            },
    {
        match resp {
            PollResponse::NotModified => {},
            PollResponse::Changed(entries) => {
                let n = entries.len();
                let mut i: usize = 0;
                proof {
                    assert(entries.deep_view().subrange(0, 0) =~= Seq::<(
                        Seq<char>,
                        ValueView,
                    )>::empty());
                }
                #[verifier::loop_isolation(false)]
                while i < n
                    invariant
                        i <= n,
                        n == entries@.len(),
                        self.wf(),
                        self@ == (DeviceModel {
                            cache: spec_cache_after_poll(
                                old(self)@.cache,
                                entries.deep_view().subrange(0, i as int),
                            ),
                            bus: Some(
                                spec_log_after_poll(
                                    old(self)@.bus.unwrap(),
                                    entries.deep_view().subrange(0, i as int),
                                ),
                            ),
                            ..old(self)@
                        }),
                    decreases n - i,
                {
                    let ghost done = entries.deep_view().subrange(0, i as int);
                    let entry = &entries[i];
                    proof {
                        assert(entries.deep_view()[i as int] == (entry.0@, entry.1@));
                        assert(entries.deep_view().subrange(0, i + 1) =~= done.push(
                            (entry.0@, entry.1@),
                        ));
                        lemma_poll_fold_snoc(
                            old(self)@.cache,
                            old(self)@.bus.unwrap(),
                            done,
                            (entry.0@, entry.1@),
                        );
                    }
                    let raw = entry.1.duplicate();
                    match raw.decode(entry.0.as_str()) {
                        Ok(decoded) => {
                            self.cache.insert(entry.0.clone(), decoded.duplicate());
                            match &mut self.updates {
                                Some(bus) => {
                                    bus.send(Update::External(entry.0.clone(), decoded));
                                },
                                None => {},
                            }
                        },
                        Err(_) => {},
                    }
                    i += 1;
                }
                proof {
                    assert(entries.deep_view().subrange(0, n as int) =~= entries.deep_view());
                }
            },
        }
    }

    /// Apply the outcome of a write of `data` to the device. On a success
    /// status (`200` or `204`) every written pair lands in the cache and
    /// exactly one `Internal` update per pair goes out on the bus, in
    /// write order, cache first. On any other status nothing is applied,
    /// nothing is emitted, and the error carries the status and response
    /// body for diagnosis: the batch is all-or-nothing.
    pub fn apply_write_result(
        &mut self,
        data: &Vec<(String, Value)>,
        status: u16,
        body: String,
    ) -> (r: Result<(), DeviceError>)
        requires
            old(self)@.bus is Some,
            old(self).wf(),
        ensures
            final(self).wf(),
            match r {
                Ok(()) => {
                    &&& (status == 200 || status == 204)
                    &&& final(self)@ == (DeviceModel {
                        cache: spec_cache_after_writes(old(self)@.cache, data.deep_view()),
                        bus: Some(
                            spec_log_after_writes(old(self)@.bus.unwrap(), data.deep_view()),
                        ),
                        ..old(self)@
                    })
                },
                Err(e) => {
                    &&& status != 200 && status != 204
                    &&& e == DeviceError::BadResponse(status, body)
                    &&& final(self)@ == old(self)@
                },
            },
    {
        if !(status == 200 || status == 204) {
            return Err(DeviceError::BadResponse(status, body));
        }
        let n = data.len();
        let mut i: usize = 0;
        proof {
            assert(data.deep_view().subrange(0, 0) =~= Seq::<(Seq<char>, ValueView)>::empty());
        }
        #[verifier::loop_isolation(false)]
        while i < n
            invariant
                i <= n,
                n == data@.len(),
                self.wf(),
                self@ == (DeviceModel {
                    cache: spec_cache_after_writes(
                        old(self)@.cache,
                        data.deep_view().subrange(0, i as int),
                    ),
                    bus: Some(
                        spec_log_after_writes(
                            old(self)@.bus.unwrap(),
                            data.deep_view().subrange(0, i as int),
                        ),
                    ),
                    ..old(self)@
                }),
            decreases n - i,
        {
            let ghost done = data.deep_view().subrange(0, i as int);
            let entry = &data[i];
            proof {
                assert(data.deep_view()[i as int] == (entry.0@, entry.1@));
                assert(data.deep_view().subrange(0, i + 1) =~= done.push((entry.0@, entry.1@)));
                lemma_write_fold_snoc(
                    old(self)@.cache,
                    old(self)@.bus.unwrap(),
                    done,
                    (entry.0@, entry.1@),
                );
            }
            self.cache.insert(entry.0.clone(), entry.1.duplicate());
            match &mut self.updates {
                Some(bus) => {
                    bus.send(Update::Internal(entry.0.clone(), entry.1.duplicate()));
                },
                None => {},
            }
            i += 1;
        }
        proof {
            assert(data.deep_view().subrange(0, n as int) =~= data.deep_view());
        }
        Ok(())
    }

    /// Seed both directions' bank tables from one snapshot of the cache.
    /// The snapshot's enumeration order is whatever the cache produced;
    /// both tables are built from the same enumeration.
    pub fn build_banks(&mut self)
        ensures
            final(self).wf(),
            exists|entries: Seq<(Seq<char>, ValueView)>|
                {
                    &&& #[trigger] spec_enumerates(old(self)@.cache, entries)
                    &&& final(self)@ == (DeviceModel {
                        input_banks: Some(
                            spec_project(
                                Map::<u32, BankModel>::empty(),
                                ChannelBankType::Input,
                                entries,
                            ),
                        ),
                        output_banks: Some(
                            spec_project(
                                Map::<u32, BankModel>::empty(),
                                ChannelBankType::Output,
                                entries,
                            ),
                        ),
                        ..old(self)@
                    })
                },
    {
        let snap = self.cache.snapshot();
        let ib = crate::extchannel::seed_banks(ChannelBankType::Input, &snap);
        let ob = crate::extchannel::seed_banks(ChannelBankType::Output, &snap);
        self.input_banks = Some(ib);
        self.output_banks = Some(ob);
        proof {
            let entries = snap.deep_view();
            assert(spec_enumerates(old(self)@.cache, entries)) by {
                assert(forall|i: int|
                    0 <= i < entries.len() ==> (#[trigger] entries[i]) == (snap@[i].0@,
                    snap@[i].1@));
                assert forall|k: Seq<char>| old(self)@.cache.contains_key(k) implies exists|i: int|
                    0 <= i < entries.len() && (#[trigger] entries[i]).0 == k by {
                    let i = choose|i: int|
                        0 <= i < snap@.len() && (#[trigger] snap@[i]).0@ == k;
                    assert(entries[i].0 == k);
                }
            }
        }
    }

    /// Route one live update into the hierarchical model, through the same
    /// single-entry routine seeding used. Both `Internal` and `External`
    /// updates are applied, so the model tracks this client's writes and
    /// the device's own changes alike. Updates whose paths match no seeded
    /// direction leave the model unchanged; before seeding there is
    /// nothing to maintain and nothing changes.
    pub fn apply_update(&mut self, upd: &Update) -> (r: Result<(), DeviceError>)
        requires
            old(self).wf(),
        ensures
            final(self).wf(),
            r is Ok,
            final(self)@ == (DeviceModel {
                input_banks: match old(self)@.input_banks {
                    Some(m) => Some(
                        spec_route(
                            m,
                            ChannelBankType::Input,
                            spec_update_parts(upd@).0,
                            spec_update_parts(upd@).1,
                        ),
                    ),
                    None => None,
                },
                output_banks: match old(self)@.output_banks {
                    Some(m) => Some(
                        spec_route(
                            m,
                            ChannelBankType::Output,
                            spec_update_parts(upd@).0,
                            spec_update_parts(upd@).1,
                        ),
                    ),
                    None => None,
                },
                ..old(self)@
            }),
    {
        let (key, value): (&String, &Value) = match upd {
            Update::Internal(k, v) => (k, v),
            Update::External(k, v) => (k, v),
        };
        match &mut self.input_banks {
            Some(banks) => {
                crate::extchannel::apply_entry(
                    banks,
                    ChannelBankType::Input,
                    key.as_str(),
                    value,
                );
            },
            None => {},
        }
        match &mut self.output_banks {
            Some(banks) => {
                crate::extchannel::apply_entry(
                    banks,
                    ChannelBankType::Output,
                    key.as_str(),
                    value,
                );
            },
            None => {},
        }
        Ok(())
    }
}

impl DeviceType {
    /// The text an endpoint kind renders as.
    pub open spec fn spec_text(self) -> Seq<char> {
        match self {
            DeviceType::Host => "Host"@,
            DeviceType::Device => "Device"@,
            DeviceType::Unknown => "Unknown"@,
        }
    }

    /// The endpoint kind, as `Display` would render it.
    pub fn describe(&self) -> (r: &'static str)
        ensures
            r@ == self.spec_text(),
    {
        match self {
            DeviceType::Host => "Host",
            DeviceType::Device => "Device",
            DeviceType::Unknown => "Unknown",
        }
    }
}

/// The one-line summary of a session's identity.
pub open spec fn spec_device_display(d: DeviceModel) -> Seq<char> {
    "Name: \""@ + d.name + "\"  Type: "@ + d.device_type.spec_text() + "  Hostname: "@
        + d.hostname + seq![':'] + u_dec_str(d.port as int)
}

impl Device {
    /// The session's identity line, as `Display` would render it.
    pub fn describe(&self) -> (r: String)
        ensures
            r@ == spec_device_display(self@),
    {
        let mut out = String::new();
        out.append("Name: \"");
        out.append(self.name.as_str());
        out.append("\"  Type: ");
        out.append(self.device_type.describe());
        out.append("  Hostname: ");
        out.append(self.hostname.as_str());
        out.append(":");
        let port = u32_to_string(self.port as u32);
        out.append(port.as_str());
        proof {
            reveal_strlit(":");
            assert(seq![':'] =~= ":"@);
            assert(out@ =~= spec_device_display(self@));
        }
        out
    }
}

impl PartialEq for Device {
    /// Two sessions are the same device when name, host, port and kind
    /// agree; connection state and mirrored data do not matter.
    fn eq(&self, other: &Self) -> (r: bool) {
        str_eq(self.name.as_str(), other.name.as_str()) && str_eq(
            self.hostname.as_str(),
            other.hostname.as_str(),
        ) && self.port == other.port && self.device_type == other.device_type
    }
}

impl vstd::std_specs::cmp::PartialEqSpecImpl for Device {
    open spec fn obeys_eq_spec() -> bool {
        true
    }

    open spec fn eq_spec(&self, other: &Device) -> bool {
        &&& self@.name == other@.name
        &&& self@.hostname == other@.hostname
        &&& self@.port == other@.port
        &&& self@.device_type == other@.device_type
    }
}

/// Relies on `rand::random` for a fresh client id. Nothing is promised of
/// the drawn value.
#[verifier::external_body]
fn random_client_id() -> u32 {
    rand::random::<u32>()
}

} // verus!
