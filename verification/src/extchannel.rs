//! The hierarchical model: banks of channels projected from the flat store,
//! the per-entry update routines that build and maintain them, and the
//! builders that translate domain intent back into flat write requests.

use vstd::prelude::*;

use crate::index_map::IndexMap;
use crate::request::Request;
use crate::text::{
    dec_int_val, is_u32_str, parse_u32, split_seq, split_str, str_eq, u32_to_string, u_dec_str,
};
use crate::value::{
    spec_as_bool, spec_as_i32, spec_as_i32_pair, spec_as_u32, spec_encode, Value, ValueError,
    ValueView,
};

verus! {

/// Errors raised while routing a flat entry into the hierarchical model.
#[derive(Clone, Debug, PartialEq)]
pub enum ParseError {
    /// A value did not coerce to the integer or flag a field requires.
    UnableToParseInt,
    /// A `ch` entry lacks the channel index and attribute segments.
    NotEnoughDataInSegment,
    /// A shape the store never produces.
    WTF,
    /// The named segment is neither the input nor the output bank tag.
    NotAbleToParseBankType(String),
    /// A path segment that must be an integer is not one.
    ParseIntError,
    /// A value-level decode failure carried through.
    ValueError(ValueError),
}

/// Types that know their own path segment in the store's key space.
pub trait PathSeg {
    /// The path segment as a sequence of characters.
    spec fn spec_seg(&self) -> Seq<char>;

    /// The path segment, rendered.
    fn seg(&self) -> (r: String)
        ensures
            r@ == self.spec_seg(),
    ;
}

/// Input or output direction of a channel bank.
#[derive(Clone, Copy, Debug, PartialEq, Eq, Structural)]
pub enum ChannelBankType {
    Input,
    Output,
}

impl ChannelBankType {
    /// The tag this direction uses inside store paths.
    pub open spec fn spec_tag(self) -> Seq<char> {
        match self {
            ChannelBankType::Input => seq!['i', 'b', 'a', 'n', 'k'],
            ChannelBankType::Output => seq!['o', 'b', 'a', 'n', 'k'],
        }
    }

    /// Parse a direction from its path tag: `ibank` or `obank`.
    pub fn try_from(value: &str) -> (r: Result<ChannelBankType, ParseError>)
        ensures
            match r {
                Ok(t) => value@ == t.spec_tag(),
                Err(e) => {
                    &&& value@ != ChannelBankType::Input.spec_tag()
                    &&& value@ != ChannelBankType::Output.spec_tag()
                    &&& e matches ParseError::NotAbleToParseBankType(s) && s@ == value@
                },
            },
    {
        proof {
            reveal_strlit("ibank");
            reveal_strlit("obank");
            assert("ibank"@ =~= ChannelBankType::Input.spec_tag());
            assert("obank"@ =~= ChannelBankType::Output.spec_tag());
        }
        if str_eq(value, "ibank") {
            Ok(ChannelBankType::Input)
        } else if str_eq(value, "obank") {
            Ok(ChannelBankType::Output)
        } else {
            Err(ParseError::NotAbleToParseBankType(value.to_owned()))
        }
    }
}

impl Default for ChannelBankType {
    /// The default direction is input.
    fn default() -> (r: Self)
        ensures
            r == ChannelBankType::Input,
    {
        ChannelBankType::Input
    }
}

impl PathSeg for ChannelBankType {
    open spec fn spec_seg(&self) -> Seq<char> {
        self.spec_tag()
    }

    fn seg(&self) -> (r: String)
        ensures
            r@ == self.spec_seg(),
    {
        proof {
            reveal_strlit("ibank");
            reveal_strlit("obank");
            assert("ibank"@ =~= ChannelBankType::Input.spec_tag());
            assert("obank"@ =~= ChannelBankType::Output.spec_tag());
        }
        match self {
            ChannelBankType::Input => "ibank".to_owned(),
            ChannelBankType::Output => "obank".to_owned(),
        }
    }
}

/// A trim level together with its allowed range.
#[derive(Clone, Copy, Debug, PartialEq)]
pub struct TrimValue {
    /// The current trim, in dB.
    pub trim: i32,
    /// The `(low, high)` bounds the device allows for this channel.
    pub trim_range: (i32, i32),
}

impl Default for TrimValue {
    fn default() -> (r: Self)
        ensures
            r.trim == 0 && r.trim_range == (0i32, 0i32),
    {
        TrimValue { trim: 0, trim_range: (0, 0) }
    }
}

/// A channel's trim: mono, or linked stereo. Which of the two a channel has
/// is fixed the first time either is observed.
#[derive(Clone, Copy, Debug, PartialEq)]
pub enum Trim {
    Mono(TrimValue),
    Stereo(TrimValue),
}

/// One addressable signal path within a bank. Every attribute is optional:
/// the device only reports fields the channel's hardware supports.
#[derive(Clone, Debug, PartialEq)]
pub struct ExtChannel {
    pub index: u32,
    pub default_name: Option<String>,
    pub name: Option<String>,
    pub src: Option<String>,
    pub trim: Option<Trim>,
    pub pad: Option<bool>,
    pub phase: Option<bool>,
    pub phantom_power: Option<bool>,
    pub connection: Option<bool>,
}

/// The mathematical shadow of an `ExtChannel`.
#[verifier::ext_equal]
pub struct ChannelModel {
    pub index: u32,
    pub default_name: Option<Seq<char>>,
    pub name: Option<Seq<char>>,
    pub src: Option<Seq<char>>,
    pub trim: Option<Trim>,
    pub pad: Option<bool>,
    pub phase: Option<bool>,
    pub phantom_power: Option<bool>,
    pub connection: Option<bool>,
}

impl View for ExtChannel {
    type V = ChannelModel;

    open spec fn view(&self) -> ChannelModel {
        ChannelModel {
            index: self.index,
            default_name: self.default_name.deep_view(),
            name: self.name.deep_view(),
            src: self.src.deep_view(),
            trim: self.trim,
            pad: self.pad,
            phase: self.phase,
            phantom_power: self.phantom_power,
            connection: self.connection,
        }
    }
}

/// A channel that has been referenced but not yet described.
pub open spec fn spec_empty_channel(index: u32) -> ChannelModel {
    ChannelModel {
        index,
        default_name: None,
        name: None,
        src: None,
        trim: None,
        pad: None,
        phase: None,
        phantom_power: None,
        connection: None,
    }
}

impl ExtChannel {
    /// A fresh channel entry carrying only its index.
    pub fn empty(index: u32) -> (r: ExtChannel)
        ensures
            r@ == spec_empty_channel(index),
    {
        ExtChannel {
            index,
            default_name: None,
            name: None,
            src: None,
            trim: None,
            pad: None,
            phase: None,
            phantom_power: None,
            connection: None,
        }
    }
}

/// Setting the mono trim level: creates a mono trim on first observation;
/// leaves a stereo trim untouched, since the variant is fixed for life.
pub open spec fn spec_set_mono_trim(t: Option<Trim>, val: i32) -> Option<Trim> {
    match t {
        None => Some(Trim::Mono(TrimValue { trim: val, trim_range: (0, 0) })),
        Some(Trim::Mono(tv)) => Some(Trim::Mono(TrimValue { trim: val, ..tv })),
        Some(Trim::Stereo(_)) => t,
    }
}

pub open spec fn spec_set_mono_trim_range(t: Option<Trim>, range: (i32, i32)) -> Option<Trim> {
    match t {
        None => Some(Trim::Mono(TrimValue { trim: 0, trim_range: range })),
        Some(Trim::Mono(tv)) => Some(Trim::Mono(TrimValue { trim_range: range, ..tv })),
        Some(Trim::Stereo(_)) => t,
    }
}

pub open spec fn spec_set_stereo_trim(t: Option<Trim>, val: i32) -> Option<Trim> {
    match t {
        None => Some(Trim::Stereo(TrimValue { trim: val, trim_range: (0, 0) })),
        Some(Trim::Stereo(tv)) => Some(Trim::Stereo(TrimValue { trim: val, ..tv })),
        Some(Trim::Mono(_)) => t,
    }
}

pub open spec fn spec_set_stereo_trim_range(t: Option<Trim>, range: (i32, i32)) -> Option<Trim> {
    match t {
        None => Some(Trim::Stereo(TrimValue { trim: 0, trim_range: range })),
        Some(Trim::Stereo(tv)) => Some(Trim::Stereo(TrimValue { trim_range: range, ..tv })),
        Some(Trim::Mono(_)) => t,
    }
}

impl ExtChannel {
    /// Set the mono trim level, fixing the trim variant to mono when first seen.
    pub fn set_mono_trim(&mut self, val: i32)
        ensures
            final(self)@ == (ChannelModel {
                trim: spec_set_mono_trim(old(self)@.trim, val),
                ..old(self)@
            }),
    {
        match &mut self.trim {
            None => {
                self.trim = Some(Trim::Mono(TrimValue { trim: val, trim_range: (0, 0) }));
            },
            Some(Trim::Mono(tv)) => {
                tv.trim = val;
            },
            Some(Trim::Stereo(_)) => {},
        }
    }

    /// Set the mono trim range, fixing the trim variant to mono when first seen.
    pub fn set_mono_trim_range(&mut self, val: (i32, i32))
        ensures
            final(self)@ == (ChannelModel {
                trim: spec_set_mono_trim_range(old(self)@.trim, val),
                ..old(self)@
            }),
    {
        match &mut self.trim {
            None => {
                self.trim = Some(Trim::Mono(TrimValue { trim: 0, trim_range: val }));
            },
            Some(Trim::Mono(tv)) => {
                tv.trim_range = val;
            },
            Some(Trim::Stereo(_)) => {},
        }
    }

    /// Set the stereo trim level, fixing the trim variant to stereo when first seen.
    pub fn set_stereo_trim(&mut self, val: i32)
        ensures
            final(self)@ == (ChannelModel {
                trim: spec_set_stereo_trim(old(self)@.trim, val),
                ..old(self)@
            }),
    {
        match &mut self.trim {
            None => {
                self.trim = Some(Trim::Stereo(TrimValue { trim: val, trim_range: (0, 0) }));
            },
            Some(Trim::Stereo(tv)) => {
                tv.trim = val;
            },
            Some(Trim::Mono(_)) => {},
        }
    }

    /// Set the stereo trim range, fixing the trim variant to stereo when first seen.
    pub fn set_stereo_trim_range(&mut self, val: (i32, i32))
        ensures
            final(self)@ == (ChannelModel {
                trim: spec_set_stereo_trim_range(old(self)@.trim, val),
                ..old(self)@
            }),
    {
        match &mut self.trim {
            None => {
                self.trim = Some(Trim::Stereo(TrimValue { trim: 0, trim_range: val }));
            },
            Some(Trim::Stereo(tv)) => {
                tv.trim_range = val;
            },
            Some(Trim::Mono(_)) => {},
        }
    }
}

/// The closed set of channel-level attribute names, with an explicit
/// unknown-and-ignored fallback.
#[derive(Clone, Copy, Debug, PartialEq, Eq, Structural)]
pub enum ChannelKey {
    DefaultName,
    Name,
    Src,
    Trim,
    TrimRange,
    StereoTrim,
    StereoTrimRange,
    Pad,
    Phase,
    PhantomPower,
    Connection,
    Unknown,
}

/// Which channel attribute a path segment names. `48V` is the phantom-power
/// proxy; each attribute routes to its own distinct field.
pub open spec fn spec_channel_key(s: Seq<char>) -> ChannelKey {
    if s == "defaultName"@ {
        ChannelKey::DefaultName
    } else if s == "name"@ {
        ChannelKey::Name
    } else if s == "src"@ {
        ChannelKey::Src
    } else if s == "trim"@ {
        ChannelKey::Trim
    } else if s == "trimRange"@ {
        ChannelKey::TrimRange
    } else if s == "stereoTrim"@ {
        ChannelKey::StereoTrim
    } else if s == "stereoTrimRange"@ {
        ChannelKey::StereoTrimRange
    } else if s == "pad"@ {
        ChannelKey::Pad
    } else if s == "phase"@ {
        ChannelKey::Phase
    } else if s == "48V"@ {
        ChannelKey::PhantomPower
    } else if s == "connection"@ {
        ChannelKey::Connection
    } else {
        ChannelKey::Unknown
    }
}

/// Recognize a channel-level attribute name.
pub fn channel_key_of(s: &str) -> (k: ChannelKey)
    ensures
        k == spec_channel_key(s@),
{
    if str_eq(s, "defaultName") {
        ChannelKey::DefaultName
    } else if str_eq(s, "name") {
        ChannelKey::Name
    } else if str_eq(s, "src") {
        ChannelKey::Src
    } else if str_eq(s, "trim") {
        ChannelKey::Trim
    } else if str_eq(s, "trimRange") {
        ChannelKey::TrimRange
    } else if str_eq(s, "stereoTrim") {
        ChannelKey::StereoTrim
    } else if str_eq(s, "stereoTrimRange") {
        ChannelKey::StereoTrimRange
    } else if str_eq(s, "pad") {
        ChannelKey::Pad
    } else if str_eq(s, "phase") {
        ChannelKey::Phase
    } else if str_eq(s, "48V") {
        ChannelKey::PhantomPower
    } else if str_eq(s, "connection") {
        ChannelKey::Connection
    } else {
        ChannelKey::Unknown
    }
}

/// What one channel-level update does to a channel: name-like attributes
/// take the value's string form, trims keep their first-observed variant,
/// flags coerce from booleans or integers, unknown attributes are ignored.
/// A value that does not coerce leaves the channel unchanged and reports
/// an error.
pub open spec fn spec_channel_step(c: ChannelModel, key: ChannelKey, v: ValueView) -> Result<
    ChannelModel,
    ParseError,
> {
    match key {
        ChannelKey::DefaultName => Ok(ChannelModel { default_name: Some(spec_encode(v)), ..c }),
        ChannelKey::Name => Ok(ChannelModel { name: Some(spec_encode(v)), ..c }),
        ChannelKey::Src => Ok(ChannelModel { src: Some(spec_encode(v)), ..c }),
        ChannelKey::Trim => match spec_as_i32(v) {
            Some(t) => Ok(ChannelModel { trim: spec_set_mono_trim(c.trim, t), ..c }),
            None => Err(ParseError::UnableToParseInt),
        },
        ChannelKey::TrimRange => match spec_as_i32_pair(v) {
            Some(rg) => Ok(ChannelModel { trim: spec_set_mono_trim_range(c.trim, rg), ..c }),
            None => Err(ParseError::UnableToParseInt),
        },
        ChannelKey::StereoTrim => match spec_as_i32(v) {
            Some(t) => Ok(ChannelModel { trim: spec_set_stereo_trim(c.trim, t), ..c }),
            None => Err(ParseError::UnableToParseInt),
        },
        ChannelKey::StereoTrimRange => match spec_as_i32_pair(v) {
            Some(rg) => Ok(ChannelModel { trim: spec_set_stereo_trim_range(c.trim, rg), ..c }),
            None => Err(ParseError::UnableToParseInt),
        },
        ChannelKey::Pad => match spec_as_bool(v) {
            Some(b) => Ok(ChannelModel { pad: Some(b), ..c }),
            None => Err(ParseError::UnableToParseInt),
        },
        ChannelKey::Phase => match spec_as_bool(v) {
            Some(b) => Ok(ChannelModel { phase: Some(b), ..c }),
            None => Err(ParseError::UnableToParseInt),
        },
        ChannelKey::PhantomPower => match spec_as_bool(v) {
            Some(b) => Ok(ChannelModel { phantom_power: Some(b), ..c }),
            None => Err(ParseError::UnableToParseInt),
        },
        ChannelKey::Connection => match spec_as_bool(v) {
            Some(b) => Ok(ChannelModel { connection: Some(b), ..c }),
            None => Err(ParseError::UnableToParseInt),
        },
        ChannelKey::Unknown => Ok(c),
    }
}

impl ExtChannel {
    /// Apply one flat entry to this channel. `key[from]` names the
    /// attribute; any further segments are ignored. On error the channel is
    /// unchanged.
    pub fn update(&mut self, key: &Vec<String>, from: usize, value: &Value) -> (r: Result<
        (),
        ParseError,
    >)
        requires
            from < key@.len(),
        ensures
            match r {
                Ok(()) => spec_channel_step(old(self)@, spec_channel_key(key.deep_view()[from as int]), value@)
                    == Ok::<ChannelModel, ParseError>(final(self)@),
                Err(e) => {
                    &&& spec_channel_step(old(self)@, spec_channel_key(key.deep_view()[from as int]), value@)
                        == Err::<ChannelModel, ParseError>(e)
                    &&& *final(self) == *old(self)
                },
            },
    {
        let k = channel_key_of(key[from].as_str());
        match k {
            ChannelKey::DefaultName => {
                self.default_name = Some(value.encode());
                Ok(())
            },
            ChannelKey::Name => {
                self.name = Some(value.encode());
                Ok(())
            },
            ChannelKey::Src => {
                self.src = Some(value.encode());
                Ok(())
            },
            ChannelKey::Trim => match value.as_i32() {
                Some(t) => {
                    self.set_mono_trim(t);
                    Ok(())
                },
                None => Err(ParseError::UnableToParseInt),
            },
            ChannelKey::TrimRange => match value.as_i32_pair() {
                Some(rg) => {
                    self.set_mono_trim_range(rg);
                    Ok(())
                },
                None => Err(ParseError::UnableToParseInt),
            },
            ChannelKey::StereoTrim => match value.as_i32() {
                Some(t) => {
                    self.set_stereo_trim(t);
                    Ok(())
                },
                None => Err(ParseError::UnableToParseInt),
            },
            ChannelKey::StereoTrimRange => match value.as_i32_pair() {
                Some(rg) => {
                    self.set_stereo_trim_range(rg);
                    Ok(())
                },
                None => Err(ParseError::UnableToParseInt),
            },
            ChannelKey::Pad => match value.as_bool() {
                Some(b) => {
                    self.pad = Some(b);
                    Ok(())
                },
                None => Err(ParseError::UnableToParseInt),
            },
            ChannelKey::Phase => match value.as_bool() {
                Some(b) => {
                    self.phase = Some(b);
                    Ok(())
                },
                None => Err(ParseError::UnableToParseInt),
            },
            ChannelKey::PhantomPower => match value.as_bool() {
                Some(b) => {
                    self.phantom_power = Some(b);
                    Ok(())
                },
                None => Err(ParseError::UnableToParseInt),
            },
            ChannelKey::Connection => match value.as_bool() {
                Some(b) => {
                    self.connection = Some(b);
                    Ok(())
                },
                None => Err(ParseError::UnableToParseInt),
            },
            ChannelKey::Unknown => Ok(()),
        }
    }
}

/// One of the device's named channel groups: a bank of channels sharing a
/// direction, with its scalar attributes and its channel table.
#[derive(Debug, Clone, PartialEq)]
pub struct ChannelBank {
    pub index: u32,
    /// The user-visible name of the bank.
    pub name: Option<String>,
    /// Input or output. Immutable after creation, like the index.
    pub t: ChannelBankType,
    /// The multiplex mode the device reports for optical banks.
    pub smux: Option<String>,
    /// Channels available at the current sample rate.
    pub num_channels: u32,
    /// The most channels the bank can ever have.
    pub max_channels: u32,
    /// Channels the user has enabled.
    pub user_channels: u32,
    /// Channels actually active right now.
    pub currenty_active_channels: u32,
    /// The channels of the bank, keyed by channel index.
    pub channels: IndexMap<ExtChannel>,
}

/// The mathematical shadow of a `ChannelBank`.
#[verifier::ext_equal]
pub struct BankModel {
    pub index: u32,
    pub name: Option<Seq<char>>,
    pub t: ChannelBankType,
    pub smux: Option<Seq<char>>,
    pub num_channels: u32,
    pub max_channels: u32,
    pub user_channels: u32,
    pub currenty_active_channels: u32,
    pub channels: Map<u32, ChannelModel>,
}

impl View for ChannelBank {
    type V = BankModel;

    open spec fn view(&self) -> BankModel {
        BankModel {
            index: self.index,
            name: self.name.deep_view(),
            t: self.t,
            smux: self.smux.deep_view(),
            num_channels: self.num_channels,
            max_channels: self.max_channels,
            user_channels: self.user_channels,
            currenty_active_channels: self.currenty_active_channels,
            channels: self.channels@.map_values(|c: ExtChannel| c@),
        }
    }
}

/// A bank that has been referenced but not yet described.
pub open spec fn spec_empty_bank(index: u32, t: ChannelBankType) -> BankModel {
    BankModel {
        index,
        name: None,
        t,
        smux: None,
        num_channels: 0,
        max_channels: 0,
        user_channels: 0,
        currenty_active_channels: 0,
        channels: Map::<u32, ChannelModel>::empty(),
    }
}

impl ChannelBank {
    /// The channel table's keys stay unique.
    pub open spec fn wf(&self) -> bool {
        self.channels.wf()
    }

    /// A fresh bank carrying only its index and direction.
    pub fn empty(index: u32, t: ChannelBankType) -> (r: ChannelBank)
        ensures
            r@ == spec_empty_bank(index, t),
            r.wf(),
    {
        let r = ChannelBank {
            index,
            name: None,
            t,
            smux: None,
            num_channels: 0,
            max_channels: 0,
            user_channels: 0,
            currenty_active_channels: 0,
            channels: IndexMap::new(),
        };
        proof {
            assert(r@.channels =~= Map::<u32, ChannelModel>::empty());
        }
        r
    }
}

/// The closed set of bank-level attribute names, with an explicit
/// unknown-and-ignored fallback.
#[derive(Clone, Copy, Debug, PartialEq, Eq, Structural)]
pub enum BankKey {
    Name,
    NumCh,
    MaxCh,
    UserCh,
    CalcCh,
    Smux,
    Ch,
    Unknown,
}

/// Which bank attribute a path segment names.
pub open spec fn spec_bank_key(s: Seq<char>) -> BankKey {
    if s == "name"@ {
        BankKey::Name
    } else if s == "numCh"@ {
        BankKey::NumCh
    } else if s == "maxCh"@ {
        BankKey::MaxCh
    } else if s == "userCh"@ {
        BankKey::UserCh
    } else if s == "calcCh"@ {
        BankKey::CalcCh
    } else if s == "smux"@ {
        BankKey::Smux
    } else if s == "ch"@ {
        BankKey::Ch
    } else {
        BankKey::Unknown
    }
}

/// Recognize a bank-level attribute name.
pub fn bank_key_of(s: &str) -> (k: BankKey)
    ensures
        k == spec_bank_key(s@),
{
    if str_eq(s, "name") {
        BankKey::Name
    } else if str_eq(s, "numCh") {
        BankKey::NumCh
    } else if str_eq(s, "maxCh") {
        BankKey::MaxCh
    } else if str_eq(s, "userCh") {
        BankKey::UserCh
    } else if str_eq(s, "calcCh") {
        BankKey::CalcCh
    } else if str_eq(s, "smux") {
        BankKey::Smux
    } else if str_eq(s, "ch") {
        BankKey::Ch
    } else {
        BankKey::Unknown
    }
}

/// What one bank-level update does to a bank. Scalar attributes set their
/// field; `ch` needs a channel index and an attribute segment and routes
/// into the channel, creating it on first reference; unknown attributes are
/// ignored. On error the bank is unchanged (in particular, a failed channel
/// update does not create the channel).
pub open spec fn spec_bank_step(
    b: BankModel,
    segs: Seq<Seq<char>>,
    from: int,
    v: ValueView,
) -> Result<BankModel, ParseError> {
    match spec_bank_key(segs[from]) {
        BankKey::Name => Ok(BankModel { name: Some(spec_encode(v)), ..b }),
        BankKey::NumCh => match spec_as_u32(v) {
            Some(n) => Ok(BankModel { num_channels: n, ..b }),
            None => Err(ParseError::UnableToParseInt),
        },
        BankKey::MaxCh => match spec_as_u32(v) {
            Some(n) => Ok(BankModel { max_channels: n, ..b }),
            None => Err(ParseError::UnableToParseInt),
        },
        BankKey::UserCh => match spec_as_u32(v) {
            Some(n) => Ok(BankModel { user_channels: n, ..b }),
            None => Err(ParseError::UnableToParseInt),
        },
        BankKey::CalcCh => match spec_as_u32(v) {
            Some(n) => Ok(BankModel { currenty_active_channels: n, ..b }),
            None => Err(ParseError::UnableToParseInt),
        },
        BankKey::Smux => Ok(BankModel { smux: Some(spec_encode(v)), ..b }),
        BankKey::Ch => if segs.len() - from < 3 {
            Err(ParseError::NotEnoughDataInSegment)
        } else if !is_u32_str(segs[from + 1]) {
            Err(ParseError::ParseIntError)
        } else {
            let ci = dec_int_val(segs[from + 1]) as u32;
            let c = if b.channels.contains_key(ci) {
                b.channels[ci]
            } else {
                spec_empty_channel(ci)
            };
            match spec_channel_step(c, spec_channel_key(segs[from + 2]), v) {
                Ok(c2) => Ok(BankModel { channels: b.channels.insert(ci, c2), ..b }),
                Err(e) => Err(e),
            }
        },
        BankKey::Unknown => Ok(b),
    }
}

proof fn lemma_channels_view_insert(m: Map<u32, ExtChannel>, k: u32, c: ExtChannel)
    ensures
        m.insert(k, c).map_values(|x: ExtChannel| x@) == m.map_values(
            |x: ExtChannel| x@,
        ).insert(k, c@),
{
    assert(m.insert(k, c).map_values(|x: ExtChannel| x@) =~= m.map_values(
        |x: ExtChannel| x@,
    ).insert(k, c@));
}

proof fn lemma_channels_view_restore(m: Map<u32, ExtChannel>, k: u32)
    requires
        m.contains_key(k),
    ensures
        m.remove(k).insert(k, m[k]) == m,
{
    assert(m.remove(k).insert(k, m[k]) =~= m);
}

impl ChannelBank {
    /// Apply one flat entry to this bank. `key[from]` names the bank
    /// attribute; a `ch` entry routes `key[from + 1]` (the channel index)
    /// and `key[from + 2]` (the channel attribute) into the channel table.
    /// On error the bank is unchanged.
    pub fn update(&mut self, key: &Vec<String>, from: usize, value: &Value) -> (r: Result<
        (),
        ParseError,
    >)
        requires
            from < key@.len(),
            old(self).wf(),
        ensures
            final(self).wf(),
            final(self)@.index == old(self)@.index,
            final(self)@.t == old(self)@.t,
            match r {
                Ok(()) => spec_bank_step(
                    old(self)@,
                    key.deep_view(),
                    from as int,
                    value@,
                ) == Ok::<BankModel, ParseError>(final(self)@),
                Err(e) => {
                    &&& spec_bank_step(old(self)@, key.deep_view(), from as int, value@)
                        == Err::<BankModel, ParseError>(e)
                    &&& final(self)@ == old(self)@
                },
            },
    {
        let k = bank_key_of(key[from].as_str());
        match k {
            BankKey::Name => {
                self.name = Some(value.encode());
                Ok(())
            },
            BankKey::NumCh => match value.as_u32() {
                Some(n) => {
                    self.num_channels = n;
                    Ok(())
                },
                None => Err(ParseError::UnableToParseInt),
            },
            BankKey::MaxCh => match value.as_u32() {
                Some(n) => {
                    self.max_channels = n;
                    Ok(())
                },
                None => Err(ParseError::UnableToParseInt),
            },
            BankKey::UserCh => match value.as_u32() {
                Some(n) => {
                    self.user_channels = n;
                    Ok(())
                },
                None => Err(ParseError::UnableToParseInt),
            },
            BankKey::CalcCh => match value.as_u32() {
                Some(n) => {
                    self.currenty_active_channels = n;
                    Ok(())
                },
                None => Err(ParseError::UnableToParseInt),
            },
            BankKey::Smux => {
                self.smux = Some(value.encode());
                Ok(())
            },
            BankKey::Ch => {
                if key.len() - from < 3 {
                    return Err(ParseError::NotEnoughDataInSegment);
                }
                let ci = match parse_u32(key[from + 1].as_str()) {
                    Some(v) => v,
                    None => {
                        proof {
                            assert(key.deep_view()[from + 1] == key@[from + 1]@);
                        }
                        return Err(ParseError::ParseIntError);
                    },
                };
                proof {
                    assert(key.deep_view()[from + 1] == key@[from + 1]@);
                    assert(key.deep_view()[from + 2] == key@[from + 2]@);
                }
                let ghost chans0 = self.channels@;
                match self.channels.take(ci) {
                    Some(mut c) => {
                        let ghost c0 = c;
                        proof {
                            assert(chans0.map_values(|x: ExtChannel| x@).contains_key(ci));
                            assert(chans0.map_values(|x: ExtChannel| x@)[ci] == c0@);
                        }
                        match c.update(key, from + 2, value) {
                            Ok(()) => {
                                self.channels.set(ci, c);
                                proof {
                                    lemma_channels_view_restore(chans0, ci);
                                    lemma_channels_view_insert(chans0.remove(ci).insert(ci, c0), ci, c);
                                    assert(self.channels@ =~= chans0.insert(ci, c));
                                    lemma_channels_view_insert(chans0, ci, c);
                                }
                                Ok(())
                            },
                            Err(e) => {
                                self.channels.set(ci, c);
                                proof {
                                    assert(self.channels@ =~= chans0);
                                }
                                Err(e)
                            },
                        }
                    },
                    None => {
                        proof {
                            assert(!chans0.map_values(|x: ExtChannel| x@).contains_key(ci));
                        }
                        let mut c = ExtChannel::empty(ci);
                        match c.update(key, from + 2, value) {
                            Ok(()) => {
                                self.channels.set(ci, c);
                                proof {
                                    lemma_channels_view_insert(chans0, ci, c);
                                }
                                Ok(())
                            },
                            Err(e) => Err(e),
                        }
                    },
                }
            },
            BankKey::Unknown => Ok(()),
        }
    }
}

/// The key that addresses a channel's trim, by its trim variant.
pub open spec fn spec_trim_key_suffix(t: Option<Trim>) -> Seq<char> {
    match t {
        Some(Trim::Mono(_)) => "/trim"@,
        _ => "/stereoTrim"@,
    }
}

/// The store path prefix of a bank: `ext/<ibank|obank>/<index>`.
pub open spec fn spec_bank_seg(t: ChannelBankType, index: u32) -> Seq<char> {
    seq!['e', 'x', 't', '/'] + t.spec_tag() + seq!['/'] + u_dec_str(index as int)
}

impl PathSeg for ChannelBank {
    open spec fn spec_seg(&self) -> Seq<char> {
        spec_bank_seg(self.t, self.index)
    }

    fn seg(&self) -> (r: String)
        ensures
            r@ == self.spec_seg(),
    {
        let mut r = String::new();
        r.append("ext/");
        let tag = self.t.seg();
        r.append(tag.as_str());
        r.append("/");
        let idx = u32_to_string(self.index);
        r.append(idx.as_str());
        proof {
            reveal_strlit("ext/");
            reveal_strlit("/");
            assert(r@ =~= spec_bank_seg(self.t, self.index));
        }
        r
    }
}

/// Keep a composed request only when the inner builder produced one,
/// prefixing it with the outer request's path.
fn add_optional_req(l: Option<Request>, r: Request) -> (res: Option<Request>)
    ensures
        match l {
            Some(inner) => res matches Some(req) && req.key@ == r.key@ + seq!['/'] + inner.key@
                && req.val == inner.val,
            None => res is None,
        },
{
    match l {
        Some(o) => Some(r.add(o)),
        None => None,
    }
}

impl ExtChannel {
    /// Build the channel-local request that sets this channel's trim. The
    /// trim variant picks the key: `trim` for mono, `stereoTrim` for
    /// stereo. A channel with no trim observed yet cannot be addressed, so
    /// the result is `None`.
    pub fn set_trim(&self, trim: i32) -> (r: Option<Request>)
        ensures
            match self@.trim {
                None => r is None,
                Some(Trim::Mono(_)) => r matches Some(req) && req.key@ == u_dec_str(
                    self.index as int,
                ) + "/trim"@ && req.val@ == ValueView::Int(trim as i64),
                Some(Trim::Stereo(_)) => r matches Some(req) && req.key@ == u_dec_str(
                    self.index as int,
                ) + "/stereoTrim"@ && req.val@ == ValueView::Int(trim as i64),
            },
    {
        match &self.trim {
            Some(v) => {
                let mut key = u32_to_string(self.index);
                match v {
                    Trim::Mono(_) => {
                        key.append("/trim");
                    },
                    Trim::Stereo(_) => {
                        key.append("/stereoTrim");
                    },
                }
                Some(Request { key, val: Value::Int(trim as i64) })
            },
            None => None,
        }
    }
}

impl ChannelBank {
    /// Build the request that renames this bank.
    pub fn set_name(&self, name: &str) -> (r: Request)
        ensures
            r.key@ == spec_bank_seg(self.t, self.index) + "/name"@,
            r.val@ == ValueView::Str(name@),
    {
        let mut key = self.seg();
        key.append("/name");
        Request { key, val: Value::String(name.to_owned()) }
    }

    /// Build the request that renames one channel of this bank.
    pub fn set_channel_name(&self, index: u32, name: &str) -> (r: Request)
        ensures
            r.key@ == spec_bank_seg(self.t, self.index) + "/ch/"@ + u_dec_str(index as int)
                + "/name"@,
            r.val@ == ValueView::Str(name@),
    {
        let mut key = self.seg();
        key.append("/ch/");
        let idx = u32_to_string(index);
        key.append(idx.as_str());
        key.append("/name");
        Request { key, val: Value::String(name.to_owned()) }
    }

    /// Build the request that sets one channel's trim, or `None` when the
    /// bank has no such channel or the channel's trim kind is not yet
    /// known (the kind picks the mono or stereo key).
    pub fn set_channel_trim(&self, index: u32, trim: i32) -> (r: Option<Request>)
        ensures
            match r {
                Some(req) => {
                    &&& self@.channels.contains_key(index)
                    &&& self@.channels[index].trim is Some
                    &&& req.val@ == ValueView::Int(trim as i64)
                    &&& req.key@ == spec_bank_seg(self.t, self.index) + "/ch"@ + seq!['/']
                        + u_dec_str(self@.channels[index].index as int) + spec_trim_key_suffix(
                        self@.channels[index].trim,
                    )
                },
                None => !self@.channels.contains_key(index) || self@.channels[index].trim is None,
            },
    {
        match self.channels.get(index) {
            Some(c) => {
                proof {
                    assert(self.channels@.map_values(|x: ExtChannel| x@).contains_key(index));
                    assert(self.channels@.map_values(|x: ExtChannel| x@)[index] == c@);
                }
                let mut prefix = self.seg();
                prefix.append("/ch");
                add_optional_req(
                    c.set_trim(trim),
                    Request { key: prefix, val: Value::Bool(false) },
                )
            },
            None => {
                proof {
                    assert(!self.channels@.map_values(|x: ExtChannel| x@).contains_key(index));
                }
                None
            },
        }
    }
}

/// The text a flag renders as.
pub open spec fn spec_bool_text(b: bool) -> Seq<char> {
    if b {
        "true"@
    } else {
        "false"@
    }
}

/// A labelled optional flag: nothing when absent.
pub open spec fn spec_opt_flag(label: Seq<char>, v: Option<bool>) -> Seq<char> {
    match v {
        Some(b) => label + spec_bool_text(b),
        None => Seq::<char>::empty(),
    }
}

/// The one-line summary of a channel: its effective name (the user name,
/// else the default name, else nothing), then each present attribute.
pub open spec fn spec_channel_display(c: ChannelModel) -> Seq<char> {
    let n = match c.name {
        Some(s) => s,
        None => match c.default_name {
            Some(s) => s,
            None => Seq::<char>::empty(),
        },
    };
    let source = match c.src {
        Some(s) => " Source: "@ + s,
        None => Seq::<char>::empty(),
    };
    let trim = match c.trim {
        Some(Trim::Mono(t)) => " Trim: "@ + crate::text::i_dec_str(t.trim as int) + ", Range: "@
            + crate::text::i_dec_str(t.trim_range.0 as int) + seq![':']
            + crate::text::i_dec_str(t.trim_range.1 as int),
        Some(Trim::Stereo(t)) => " Stereo Trim: "@ + crate::text::i_dec_str(t.trim as int)
            + ", Range: "@ + crate::text::i_dec_str(t.trim_range.0 as int) + seq![':']
            + crate::text::i_dec_str(t.trim_range.1 as int),
        None => Seq::<char>::empty(),
    };
    n + ": "@ + source + trim + spec_opt_flag(" Phantom Power: "@, c.phantom_power)
        + spec_opt_flag(" Pad: "@, c.pad) + spec_opt_flag(" Phase: "@, c.phase) + spec_opt_flag(
        " Connection: "@,
        c.connection,
    )
}

fn bool_text(b: bool) -> (r: &'static str)
    ensures
        r@ == spec_bool_text(b),
{
    if b {
        "true"
    } else {
        "false"
    }
}

fn append_flag(out: &mut String, label: &str, v: &Option<bool>)
    ensures
        final(out)@ == old(out)@ + spec_opt_flag(label@, *v),
{
    match v {
        Some(b) => {
            out.append(label);
            out.append(bool_text(*b));
        },
        None => {
            proof {
                assert(old(out)@ + spec_opt_flag(label@, *v) =~= old(out)@);
            }
        },
    }
}

fn append_trim_value(out: &mut String, t: &TrimValue)
    ensures
        final(out)@ == old(out)@ + crate::text::i_dec_str(t.trim as int) + ", Range: "@
            + crate::text::i_dec_str(t.trim_range.0 as int) + seq![':'] + crate::text::i_dec_str(
            t.trim_range.1 as int,
        ),
{
    let v = crate::text::i64_to_string(t.trim as i64);
    out.append(v.as_str());
    out.append(", Range: ");
    let lo = crate::text::i64_to_string(t.trim_range.0 as i64);
    out.append(lo.as_str());
    out.append(":");
    let hi = crate::text::i64_to_string(t.trim_range.1 as i64);
    out.append(hi.as_str());
    proof {
        reveal_strlit(":");
        assert(seq![':'] =~= ":"@);
    }
}

impl ExtChannel {
    /// The channel's one-line summary, as `Display` would render it.
    #[verifier::rlimit(50)]
    pub fn describe(&self) -> (r: String)
        ensures
            r@ == spec_channel_display(self@),
    {
        let ghost n_part: Seq<char> = match self@.name {
            Some(s) => s,
            None => match self@.default_name {
                Some(s) => s,
                None => Seq::<char>::empty(),
            },
        };
        let ghost src_part: Seq<char> = match self@.src {
            Some(s) => " Source: "@ + s,
            None => Seq::<char>::empty(),
        };
        let mut out = String::new();
        match &self.name {
            Some(s) => {
                out.append(s.as_str());
            },
            None => match &self.default_name {
                Some(s) => {
                    out.append(s.as_str());
                },
                None => {},
            },
        }
        out.append(": ");
        proof {
            assert(out@ =~= n_part + ": "@);
        }
        match &self.src {
            Some(s) => {
                out.append(" Source: ");
                out.append(s.as_str());
            },
            None => {},
        }
        proof {
            assert(out@ =~= n_part + ": "@ + src_part);
        }
        match &self.trim {
            Some(Trim::Mono(t)) => {
                out.append(" Trim: ");
                append_trim_value(&mut out, t);
            },
            Some(Trim::Stereo(t)) => {
                out.append(" Stereo Trim: ");
                append_trim_value(&mut out, t);
            },
            None => {},
        }
        let ghost head: Seq<char> = out@;
        proof {
            assert(head =~= n_part + ": "@ + src_part + (match self@.trim {
                Some(Trim::Mono(t)) => " Trim: "@ + crate::text::i_dec_str(t.trim as int)
                    + ", Range: "@ + crate::text::i_dec_str(t.trim_range.0 as int) + seq![':']
                    + crate::text::i_dec_str(t.trim_range.1 as int),
                Some(Trim::Stereo(t)) => " Stereo Trim: "@ + crate::text::i_dec_str(
                    t.trim as int,
                ) + ", Range: "@ + crate::text::i_dec_str(t.trim_range.0 as int) + seq![':']
                    + crate::text::i_dec_str(t.trim_range.1 as int),
                None => Seq::<char>::empty(),
            }));
        }
        append_flag(&mut out, " Phantom Power: ", &self.phantom_power);
        append_flag(&mut out, " Pad: ", &self.pad);
        append_flag(&mut out, " Phase: ", &self.phase);
        append_flag(&mut out, " Connection: ", &self.connection);
        proof {
            assert(out@ =~= spec_channel_display(self@));
        }
        out
    }
}

/// The channel lines of a bank's summary, one `- <index>: <channel>` line
/// per table entry, from position `i` on.
pub open spec fn spec_channels_display_from(entries: Seq<(u32, ExtChannel)>, i: int) -> Seq<char>
    decreases entries.len() - i,
{
    if i < 0 || i >= entries.len() {
        Seq::<char>::empty()
    } else {
        "- "@ + u_dec_str(entries[i].0 as int) + ": "@ + spec_channel_display(entries[i].1@)
            + seq!['\n'] + spec_channels_display_from(entries, i + 1)
    }
}

/// The multi-line summary of a bank: its header line, then its channels.
pub open spec fn spec_bank_display(b: &ChannelBank) -> Seq<char> {
    let name = match b.name.deep_view() {
        Some(s) => seq![' '] + s + seq![','],
        None => "-"@,
    };
    u_dec_str(b.index as int) + seq![':'] + name + "  Channels: "@ + u_dec_str(
        b.num_channels as int,
    ) + ", Active Channels: "@ + u_dec_str(b.currenty_active_channels as int)
        + ", Max Channels: "@ + u_dec_str(b.max_channels as int) + seq!['\n']
        + spec_channels_display_from(b.channels.entries_seq(), 0)
}

impl ChannelBank {
    /// The bank's multi-line summary, as `Display` would render it: the
    /// header, then one line per channel in table order.
    #[verifier::rlimit(50)]
    pub fn describe(&self) -> (r: String)
        ensures
            r@ == spec_bank_display(self),
    {
        let mut out = u32_to_string(self.index);
        out.append(":");
        match &self.name {
            Some(s) => {
                out.append(" ");
                out.append(s.as_str());
                out.append(",");
            },
            None => {
                out.append("-");
            },
        }
        out.append("  Channels: ");
        let num = u32_to_string(self.num_channels);
        out.append(num.as_str());
        out.append(", Active Channels: ");
        let act = u32_to_string(self.currenty_active_channels);
        out.append(act.as_str());
        out.append(", Max Channels: ");
        let max = u32_to_string(self.max_channels);
        out.append(max.as_str());
        out.append("\n");
        let n = self.channels.len();
        let mut i: usize = 0;
        let ghost header = out@;
        proof {
            reveal_strlit(":");
            reveal_strlit(" ");
            reveal_strlit(",");
            reveal_strlit("-");
            reveal_strlit("\n");
            assert(seq![':'] =~= ":"@);
            assert(seq![' '] =~= " "@);
            assert(seq![','] =~= ","@);
            assert(seq!['\n'] =~= "\n"@);
        }
        #[verifier::loop_isolation(false)]
        while i < n
            invariant
                i <= n,
                n == self.channels.entries_seq().len(),
                out@ + spec_channels_display_from(self.channels.entries_seq(), i as int)
                    == header + spec_channels_display_from(self.channels.entries_seq(), 0),
            decreases n - i,
        {
            let entry = self.channels.entry_at(i);
            out.append("- ");
            let idx = u32_to_string(entry.0);
            out.append(idx.as_str());
            out.append(": ");
            let line = entry.1.describe();
            out.append(line.as_str());
            out.append("\n");
            i += 1;
        }
        proof {
            assert(spec_channels_display_from(self.channels.entries_seq(), n as int)
                =~= Seq::<char>::empty());
            assert(out@ =~= header + spec_channels_display_from(
                self.channels.entries_seq(),
                0,
            ));
            assert(out@ =~= spec_bank_display(self));
        }
        out
    }
}

/// What one flat entry does to a direction's bank table. An entry routes
/// only when its path reads `ext/<direction tag>/<index>/<attribute>...`;
/// the addressed bank is created on first reference; entries with
/// unparseable indices, too few segments, or uncoercible values are
/// skipped, never fatal.
pub open spec fn spec_route(
    banks: Map<u32, BankModel>,
    t: ChannelBankType,
    path: Seq<char>,
    v: ValueView,
) -> Map<u32, BankModel> {
    let segs = split_seq(path, '/');
    if segs.len() > 3 && segs[0] == "ext"@ && segs[1] == t.spec_tag() && is_u32_str(segs[2]) {
        let bi = dec_int_val(segs[2]) as u32;
        let b = if banks.contains_key(bi) {
            banks[bi]
        } else {
            spec_empty_bank(bi, t)
        };
        match spec_bank_step(b, segs, 3, v) {
            Ok(b2) => banks.insert(bi, b2),
            Err(_) => banks,
        }
    } else {
        banks
    }
}

/// Folding a whole sequence of flat entries into a bank table, first entry
/// first: what seeding from a snapshot computes.
pub open spec fn spec_project(
    banks: Map<u32, BankModel>,
    t: ChannelBankType,
    entries: Seq<(Seq<char>, ValueView)>,
) -> Map<u32, BankModel>
    decreases entries.len(),
{
    if entries.len() == 0 {
        banks
    } else {
        spec_project(spec_route(banks, t, entries[0].0, entries[0].1), t, entries.drop_first())
    }
}

/// Replaying the same entries one at a time, each through the single-entry
/// routine, starting from the empty table: what the incremental update path
/// computes.
pub open spec fn spec_replay(t: ChannelBankType, entries: Seq<(Seq<char>, ValueView)>) -> Map<
    u32,
    BankModel,
>
    decreases entries.len(),
{
    if entries.len() == 0 {
        Map::<u32, BankModel>::empty()
    } else {
        spec_route(spec_replay(t, entries.drop_last()), t, entries.last().0, entries.last().1)
    }
}

/// Extending a projection by one entry routes that entry into the result.
pub proof fn lemma_project_snoc(
    banks: Map<u32, BankModel>,
    t: ChannelBankType,
    entries: Seq<(Seq<char>, ValueView)>,
    e: (Seq<char>, ValueView),
)
    ensures
        spec_project(banks, t, entries.push(e)) == spec_route(
            spec_project(banks, t, entries),
            t,
            e.0,
            e.1,
        ),
    decreases entries.len(),
{
    if entries.len() == 0 {
        assert(entries.push(e)[0] == e);
        assert(entries.push(e).drop_first() =~= Seq::<(Seq<char>, ValueView)>::empty());
        assert(spec_project(
            spec_route(banks, t, e.0, e.1),
            t,
            Seq::<(Seq<char>, ValueView)>::empty(),
        ) == spec_route(banks, t, e.0, e.1));
    } else {
        assert(entries.push(e)[0] == entries[0]);
        assert(entries.push(e).drop_first() =~= entries.drop_first().push(e));
        lemma_project_snoc(
            spec_route(banks, t, entries[0].0, entries[0].1),
            t,
            entries.drop_first(),
            e,
        );
    }
}

/// Law (seed / replay equivalence): for every sequence of flat entries,
/// seeding a bank table from the whole sequence in one pass and replaying
/// the same entries one at a time as individual updates onto an empty table
/// produce identical bank state.
pub proof fn lemma_seed_matches_replay(t: ChannelBankType, entries: Seq<(Seq<char>, ValueView)>)
    ensures
        spec_project(Map::<u32, BankModel>::empty(), t, entries) == spec_replay(t, entries),
    decreases entries.len(),
{
    if entries.len() > 0 {
        lemma_seed_matches_replay(t, entries.drop_last());
        lemma_project_snoc(
            Map::<u32, BankModel>::empty(),
            t,
            entries.drop_last(),
            entries.last(),
        );
        assert(entries.drop_last().push(entries.last()) =~= entries);
    }
}

/// Which trim family a channel attribute belongs to: the mono family, the
/// stereo family, or neither.
pub open spec fn spec_trim_family(k: ChannelKey) -> Option<bool> {
    match k {
        ChannelKey::Trim => Some(false),
        ChannelKey::TrimRange => Some(false),
        ChannelKey::StereoTrim => Some(true),
        ChannelKey::StereoTrimRange => Some(true),
        _ => None,
    }
}

/// Two channel attributes conflict when they are trim attributes of
/// different families: whichever is applied first fixes the channel's trim
/// variant, so their order matters.
pub open spec fn spec_trim_conflict(k1: ChannelKey, k2: ChannelKey) -> bool {
    match (spec_trim_family(k1), spec_trim_family(k2)) {
        (Some(f1), Some(f2)) => f1 != f2,
        _ => false,
    }
}

/// What one channel-level update leaves behind, skipping failed coercions.
pub open spec fn spec_channel_apply(c: ChannelModel, k: ChannelKey, v: ValueView) -> ChannelModel {
    match spec_channel_step(c, k, v) {
        Ok(c2) => c2,
        Err(_) => c,
    }
}

/// Whether a channel-level update fails depends only on the attribute and
/// the value, never on the channel's current state.
proof fn lemma_channel_step_err_independent(
    c1: ChannelModel,
    c2: ChannelModel,
    k: ChannelKey,
    v: ValueView,
)
    ensures
        (spec_channel_step(c1, k, v) is Err) == (spec_channel_step(c2, k, v) is Err),
        (spec_channel_step(c1, k, v) is Err) ==> spec_channel_step(c1, k, v) == spec_channel_step(
            c2,
            k,
            v,
        ),
{
}

/// Law (channel order-independence): two distinct channel attributes that
/// are not trim attributes of different families update a channel to the
/// same state in either order.
pub proof fn lemma_channel_updates_commute(
    c: ChannelModel,
    k1: ChannelKey,
    v1: ValueView,
    k2: ChannelKey,
    v2: ValueView,
)
    requires
        k1 != k2,
        !spec_trim_conflict(k1, k2),
    ensures
        spec_channel_apply(spec_channel_apply(c, k1, v1), k2, v2) == spec_channel_apply(
            spec_channel_apply(c, k2, v2),
            k1,
            v1,
        ),
{
}

/// What one bank-level update leaves behind, skipping failed entries.
pub open spec fn spec_bank_apply(
    b: BankModel,
    segs: Seq<Seq<char>>,
    from: int,
    v: ValueView,
) -> BankModel {
    match spec_bank_step(b, segs, from, v) {
        Ok(b2) => b2,
        Err(_) => b,
    }
}

/// Two bank-level entries are independent when their order cannot matter:
/// they name different attributes, or both are ignored, or they address
/// different channels, or distinct non-conflicting attributes of one
/// channel, or either is malformed and skipped.
pub open spec fn spec_bank_targets_independent(
    segs1: Seq<Seq<char>>,
    segs2: Seq<Seq<char>>,
    from: int,
) -> bool {
    let k1 = spec_bank_key(segs1[from]);
    let k2 = spec_bank_key(segs2[from]);
    if k1 != k2 {
        true
    } else if k1 == BankKey::Unknown {
        true
    } else if k1 == BankKey::Ch {
        if segs1.len() - from < 3 || segs2.len() - from < 3 {
            true
        } else if !is_u32_str(segs1[from + 1]) || !is_u32_str(segs2[from + 1]) {
            true
        } else {
            let c1 = dec_int_val(segs1[from + 1]) as u32;
            let c2 = dec_int_val(segs2[from + 1]) as u32;
            let ck1 = spec_channel_key(segs1[from + 2]);
            let ck2 = spec_channel_key(segs2[from + 2]);
            c1 != c2 || (ck1 != ck2 && !spec_trim_conflict(ck1, ck2))
        }
    } else {
        false
    }
}

/// Law (bank order-independence): two independent bank-level entries
/// update a bank to the same state in either order.
pub proof fn lemma_bank_updates_commute(
    b: BankModel,
    segs1: Seq<Seq<char>>,
    v1: ValueView,
    segs2: Seq<Seq<char>>,
    v2: ValueView,
    from: int,
)
    requires
        0 <= from,
        from < segs1.len(),
        from < segs2.len(),
        spec_bank_targets_independent(segs1, segs2, from),
    ensures
        spec_bank_apply(spec_bank_apply(b, segs1, from, v1), segs2, from, v2) == spec_bank_apply(
            spec_bank_apply(b, segs2, from, v2),
            segs1,
            from,
            v1,
        ),
{
    let k1 = spec_bank_key(segs1[from]);
    let k2 = spec_bank_key(segs2[from]);
    if k1 == BankKey::Ch && k2 == BankKey::Ch && segs1.len() - from >= 3 && segs2.len() - from >= 3
        && is_u32_str(segs1[from + 1]) && is_u32_str(segs2[from + 1]) {
        let c1 = dec_int_val(segs1[from + 1]) as u32;
        let c2 = dec_int_val(segs2[from + 1]) as u32;
        let ck1 = spec_channel_key(segs1[from + 2]);
        let ck2 = spec_channel_key(segs2[from + 2]);
        if c1 == c2 {
            let base = if b.channels.contains_key(c1) {
                b.channels[c1]
            } else {
                spec_empty_channel(c1)
            };
            lemma_channel_updates_commute(base, ck1, v1, ck2, v2);
            lemma_channel_step_err_independent(
                base,
                spec_channel_apply(base, ck2, v2),
                ck1,
                v1,
            );
            lemma_channel_step_err_independent(
                base,
                spec_channel_apply(base, ck1, v1),
                ck2,
                v2,
            );
            assert(spec_bank_apply(spec_bank_apply(b, segs1, from, v1), segs2, from, v2)
                =~~= spec_bank_apply(spec_bank_apply(b, segs2, from, v2), segs1, from, v1));
        } else {
            assert(spec_bank_apply(spec_bank_apply(b, segs1, from, v1), segs2, from, v2)
                =~~= spec_bank_apply(spec_bank_apply(b, segs2, from, v2), segs1, from, v1));
        }
    } else {
        assert(spec_bank_apply(spec_bank_apply(b, segs1, from, v1), segs2, from, v2)
            =~~= spec_bank_apply(spec_bank_apply(b, segs2, from, v2), segs1, from, v1));
    }
}

/// Two flat entries are independent when their order through the routing
/// cannot matter: either does not route for this direction, or they
/// address different banks, or independent targets within one bank.
pub open spec fn spec_routes_independent(
    t: ChannelBankType,
    p1: Seq<char>,
    p2: Seq<char>,
) -> bool {
    let s1 = split_seq(p1, '/');
    let s2 = split_seq(p2, '/');
    let r1 = s1.len() > 3 && s1[0] == "ext"@ && s1[1] == t.spec_tag() && is_u32_str(s1[2]);
    let r2 = s2.len() > 3 && s2[0] == "ext"@ && s2[1] == t.spec_tag() && is_u32_str(s2[2]);
    if !r1 || !r2 {
        true
    } else if dec_int_val(s1[2]) as u32 != dec_int_val(s2[2]) as u32 {
        true
    } else {
        spec_bank_targets_independent(s1, s2, 3)
    }
}

/// Law (replay order-independence): routing two independent flat entries
/// into a bank table yields the same table in either order. Together with
/// the seed / replay law this says the model a cache reproduces does not
/// depend on the order independent entries arrive in, with the one
/// documented exception: a channel's mono-family and stereo-family trim
/// attributes, where the first observation fixes the trim variant.
pub proof fn lemma_route_order_independent(
    banks: Map<u32, BankModel>,
    t: ChannelBankType,
    p1: Seq<char>,
    v1: ValueView,
    p2: Seq<char>,
    v2: ValueView,
)
    requires
        spec_routes_independent(t, p1, p2),
    ensures
        spec_route(spec_route(banks, t, p1, v1), t, p2, v2) == spec_route(
            spec_route(banks, t, p2, v2),
            t,
            p1,
            v1,
        ),
{
    let s1 = split_seq(p1, '/');
    let s2 = split_seq(p2, '/');
    let r1 = s1.len() > 3 && s1[0] == "ext"@ && s1[1] == t.spec_tag() && is_u32_str(s1[2]);
    let r2 = s2.len() > 3 && s2[0] == "ext"@ && s2[1] == t.spec_tag() && is_u32_str(s2[2]);
    if r1 && r2 {
        let b1 = dec_int_val(s1[2]) as u32;
        let b2 = dec_int_val(s2[2]) as u32;
        if b1 == b2 {
            let base = if banks.contains_key(b1) {
                banks[b1]
            } else {
                spec_empty_bank(b1, t)
            };
            lemma_bank_updates_commute(base, s1, v1, s2, v2, 3);
            assert(spec_route(spec_route(banks, t, p1, v1), t, p2, v2) =~~= spec_route(
                spec_route(banks, t, p2, v2),
                t,
                p1,
                v1,
            ));
        } else {
            assert(spec_route(spec_route(banks, t, p1, v1), t, p2, v2) =~~= spec_route(
                spec_route(banks, t, p2, v2),
                t,
                p1,
                v1,
            ));
        }
    }
}

/// The bank table a map of exec banks denotes.
pub open spec fn spec_banks_model(m: Map<u32, ChannelBank>) -> Map<u32, BankModel> {
    m.map_values(|b: ChannelBank| b@)
}

/// Every bank in the table keeps a unique-keyed channel table.
pub open spec fn spec_banks_wf(m: IndexMap<ChannelBank>) -> bool {
    forall|k: u32| m@.contains_key(k) ==> (#[trigger] m@[k]).wf()
}

/// Seed the bank table of one direction from flat entries. Entries whose
/// paths do not match the direction's `ext/<tag>/<index>/...` prefix, or
/// which fail to route, are skipped.
pub fn seed_banks(t: ChannelBankType, entries: &Vec<(String, Value)>) -> (r: IndexMap<ChannelBank>)
    ensures
        spec_banks_model(r@) == spec_project(Map::<u32, BankModel>::empty(), t, entries.deep_view()),
        spec_banks_wf(r),
        r.wf(),
{
    let mut banks: IndexMap<ChannelBank> = IndexMap::new();
    let n = entries.len();
    let mut i: usize = 0;
    proof {
        assert(spec_banks_model(banks@) =~= Map::<u32, BankModel>::empty());
        assert(entries.deep_view().subrange(0, 0) =~= Seq::<(Seq<char>, ValueView)>::empty());
    }
    #[verifier::loop_isolation(false)]
    while i < n
        invariant
            i <= n,
            n == entries@.len(),
            banks.wf(),
            spec_banks_wf(banks),
            spec_banks_model(banks@) == spec_project(
                Map::<u32, BankModel>::empty(),
                t,
                entries.deep_view().subrange(0, i as int),
            ),
        decreases n - i,
    {
        let ghost done = entries.deep_view().subrange(0, i as int);
        let ghost model0 = spec_banks_model(banks@);
        let entry = &entries[i];
        proof {
            assert(entries.deep_view()[i as int] == (entry.0@, entry.1@));
            assert(entries.deep_view().subrange(0, i + 1) =~= done.push((entry.0@, entry.1@)));
            lemma_project_snoc(Map::<u32, BankModel>::empty(), t, done, (entry.0@, entry.1@));
        }
        apply_entry(&mut banks, t, entry.0.as_str(), &entry.1);
        i += 1;
    }
    proof {
        assert(entries.deep_view().subrange(0, n as int) =~= entries.deep_view());
    }
    banks
}

/// Route one flat entry into a direction's bank table: the single routine
/// both seeding and incremental maintenance go through.
pub fn apply_entry(banks: &mut IndexMap<ChannelBank>, t: ChannelBankType, path: &str, value: &Value)
    requires
        old(banks).wf(),
        spec_banks_wf(*old(banks)),
    ensures
        final(banks).wf(),
        spec_banks_wf(*final(banks)),
        spec_banks_model(final(banks)@) == spec_route(
            spec_banks_model(old(banks)@),
            t,
            path@,
            value@,
        ),
{
    let ghost model0 = spec_banks_model(old(banks)@);
    let segs = split_str(path, '/');
    proof {
        reveal_strlit("ext");
    }
    if !(segs.len() > 3) {
        return ;
    }
    if !str_eq(segs[0].as_str(), "ext") {
        proof {
            assert(segs.deep_view()[0] == segs@[0]@);
        }
        return ;
    }
    let tag = t.seg();
    if !str_eq(segs[1].as_str(), tag.as_str()) {
        proof {
            assert(segs.deep_view()[1] == segs@[1]@);
        }
        return ;
    }
    let bi = match parse_u32(segs[2].as_str()) {
        Some(v) => v,
        None => {
            proof {
                assert(segs.deep_view()[2] == segs@[2]@);
            }
            return ;
        },
    };
    proof {
        assert(segs.deep_view()[0] == segs@[0]@);
        assert(segs.deep_view()[1] == segs@[1]@);
        assert(segs.deep_view()[2] == segs@[2]@);
    }
    let ghost banks0 = banks@;
    match banks.take(bi) {
        Some(mut b) => {
            let ghost b0 = b;
            proof {
                assert(model0.contains_key(bi));
                assert(model0[bi] == b0@);
            }
            match b.update(&segs, 3, value) {
                Ok(()) => {
                    banks.set(bi, b);
                    proof {
                        assert(banks@ =~= banks0.insert(bi, b));
                        assert(spec_banks_model(banks@) =~= model0.insert(bi, b@));
                    }
                },
                Err(_) => {
                    banks.set(bi, b);
                    proof {
                        assert(spec_banks_model(banks@) =~= model0);
                    }
                },
            }
        },
        None => {
            proof {
                assert(!model0.contains_key(bi));
            }
            let mut b = ChannelBank::empty(bi, t);
            match b.update(&segs, 3, value) {
                Ok(()) => {
                    banks.set(bi, b);
                    proof {
                        assert(spec_banks_model(banks@) =~= model0.insert(bi, b@));
                    }
                },
                Err(_) => {},
            }
        },
    }
}

/// Seed the bank table of the direction `prefix` names (`ibank` or
/// `obank`) from flat entries. A prefix naming neither direction is
/// rejected; per-entry routing failures are skipped, never fatal.
pub fn build(prefix: &str, entries: &Vec<(String, Value)>) -> (r: Result<
    IndexMap<ChannelBank>,
    ParseError,
>)
    ensures
        match r {
            Ok(banks) => {
                &&& (prefix@ == ChannelBankType::Input.spec_tag() || prefix@
                    == ChannelBankType::Output.spec_tag())
                &&& exists|t: ChannelBankType|
                    prefix@ == t.spec_tag() && spec_banks_model(banks@) == #[trigger] spec_project(
                        Map::<u32, BankModel>::empty(),
                        t,
                        entries.deep_view(),
                    )
                &&& banks.wf()
                &&& spec_banks_wf(banks)
            },
            Err(e) => {
                &&& prefix@ != ChannelBankType::Input.spec_tag()
                &&& prefix@ != ChannelBankType::Output.spec_tag()
                &&& e matches ParseError::NotAbleToParseBankType(s) && s@ == prefix@
            },
        },
{
    let t = match ChannelBankType::try_from(prefix) {
        Ok(t) => t,
        Err(e) => {
            return Err(e);
        },
    };
    let banks = seed_banks(t, entries);
    Ok(banks)
}

} // verus!
