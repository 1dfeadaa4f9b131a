//! Behavior of the hierarchical model: seeding from flat entries, the
//! per-entry update routines, the fixed-trim-variant invariant, and the
//! write-request builders.

use motu::extchannel::{
    apply_entry, build, seed_banks, ChannelBank, ChannelBankType, ExtChannel, ParseError, PathSeg,
    Trim, TrimValue,
};
use motu::index_map::IndexMap;
use motu::value::Value;

fn entry(path: &str, v: Value) -> (String, Value) {
    (path.to_string(), v)
}

fn sample_entries() -> Vec<(String, Value)> {
    vec![
        entry("ext/ibank/0/name", Value::String("Mic In".to_string())),
        entry("ext/ibank/0/numCh", Value::Int(8)),
        entry("ext/ibank/0/maxCh", Value::Int(24)),
        entry("ext/ibank/0/userCh", Value::Int(6)),
        entry("ext/ibank/0/calcCh", Value::Int(4)),
        entry("ext/ibank/0/smux", Value::String("standard".to_string())),
        entry("ext/ibank/0/ch/2/defaultName", Value::String("In 3".to_string())),
        entry("ext/ibank/0/ch/2/name", Value::String("Vocal".to_string())),
        entry("ext/ibank/0/ch/2/trim", Value::Int(-6)),
        entry(
            "ext/ibank/0/ch/2/trimRange",
            Value::Pair(vec!["-96".to_string(), "22".to_string()]),
        ),
        entry("ext/ibank/0/ch/2/pad", Value::Bool(true)),
        entry("ext/ibank/0/ch/2/phase", Value::Bool(false)),
        entry("ext/ibank/0/ch/2/48V", Value::Bool(true)),
        entry("ext/ibank/0/ch/2/connection", Value::Int(1)),
        // A different bank direction: must not land in the input table.
        entry("ext/obank/0/name", Value::String("Main Out".to_string())),
        // Unknown attributes are ignored, not errors.
        entry("ext/ibank/0/ch/2/mysteryKnob", Value::Int(9)),
        entry("ext/ibank/0/mysteryBankKnob", Value::Int(9)),
        // Paths that do not match the grammar are skipped.
        entry("avb/0/cfg", Value::Int(1)),
        entry("ext/ibank/zero/name", Value::String("bad index".to_string())),
        entry("ext/ibank/0", Value::Int(0)),
    ]
}

#[test]
fn seeding_builds_bank_zero() {
    let banks = seed_banks(ChannelBankType::Input, &sample_entries());
    assert_eq!(banks.len(), 1);
    let b = banks.get(0).expect("bank 0 should exist");
    assert_eq!(b.index, 0);
    assert_eq!(b.t, ChannelBankType::Input);
    assert_eq!(b.name, Some("Mic In".to_string()));
    assert_eq!(b.num_channels, 8);
    assert_eq!(b.max_channels, 24);
    assert_eq!(b.user_channels, 6);
    assert_eq!(b.currenty_active_channels, 4);
    assert_eq!(b.smux, Some("standard".to_string()));
    let ch = b.channels.get(2).expect("channel 2 should exist");
    assert_eq!(ch.index, 2);
    assert_eq!(ch.default_name, Some("In 3".to_string()));
    assert_eq!(ch.name, Some("Vocal".to_string()));
    assert_eq!(
        ch.trim,
        Some(Trim::Mono(TrimValue { trim: -6, trim_range: (-96, 22) }))
    );
    assert_eq!(ch.pad, Some(true));
    assert_eq!(ch.phase, Some(false));
    assert_eq!(ch.phantom_power, Some(true));
    assert_eq!(ch.connection, Some(true));
}

#[test]
fn seeding_and_replaying_agree() {
    // Seeding from a snapshot in one pass and replaying the same entries
    // one at a time through the single-entry routine produce identical
    // bank state.
    let entries = sample_entries();
    let seeded = seed_banks(ChannelBankType::Input, &entries);
    let mut replayed: IndexMap<ChannelBank> = IndexMap::new();
    for (path, value) in &entries {
        apply_entry(&mut replayed, ChannelBankType::Input, path, value);
    }
    assert_eq!(seeded, replayed);

    let seeded_out = seed_banks(ChannelBankType::Output, &entries);
    let mut replayed_out: IndexMap<ChannelBank> = IndexMap::new();
    for (path, value) in &entries {
        apply_entry(&mut replayed_out, ChannelBankType::Output, path, value);
    }
    assert_eq!(seeded_out, replayed_out);
}

#[test]
fn build_accepts_both_prefixes_and_rejects_others() {
    let entries = sample_entries();
    let ib = build("ibank", &entries).expect("ibank should build");
    assert_eq!(ib.len(), 1);
    let ob = build("obank", &entries).expect("obank should build");
    assert_eq!(ob.get(0).unwrap().name, Some("Main Out".to_string()));
    match build("mbank", &entries) {
        Err(ParseError::NotAbleToParseBankType(s)) => assert_eq!(s, "mbank"),
        other => panic!("expected a bank-type error, got {:?}", other),
    }
}

#[test]
fn trim_variant_is_fixed_at_first_observation() {
    let mut ch = ExtChannel::empty(0);
    ch.set_mono_trim(-3);
    assert_eq!(ch.trim, Some(Trim::Mono(TrimValue { trim: -3, trim_range: (0, 0) })));
    // A later stereo write must not flip the variant.
    ch.set_stereo_trim(5);
    assert_eq!(ch.trim, Some(Trim::Mono(TrimValue { trim: -3, trim_range: (0, 0) })));
    ch.set_mono_trim_range((-10, 10));
    assert_eq!(ch.trim, Some(Trim::Mono(TrimValue { trim: -3, trim_range: (-10, 10) })));

    let mut st = ExtChannel::empty(1);
    st.set_stereo_trim_range((-4, 4));
    st.set_stereo_trim(2);
    st.set_mono_trim(9);
    assert_eq!(st.trim, Some(Trim::Stereo(TrimValue { trim: 2, trim_range: (-4, 4) })));
}

#[test]
fn channel_update_rejects_uncoercible_values() {
    let mut ch = ExtChannel::empty(0);
    let key = vec!["trim".to_string()];
    let r = ch.update(&key, 0, &Value::String("loud".to_string()));
    assert_eq!(r.unwrap_err(), ParseError::UnableToParseInt);
    assert_eq!(ch, ExtChannel::empty(0));
}

#[test]
fn bank_update_needs_channel_index_and_attribute() {
    let mut b = ChannelBank::empty(0, ChannelBankType::Input);
    let key = vec!["ch".to_string(), "2".to_string()];
    let r = b.update(&key, 0, &Value::Int(1));
    assert_eq!(r.unwrap_err(), ParseError::NotEnoughDataInSegment);
    let key = vec!["ch".to_string(), "two".to_string(), "trim".to_string()];
    let r = b.update(&key, 0, &Value::Int(1));
    assert_eq!(r.unwrap_err(), ParseError::ParseIntError);
}

#[test]
fn failed_channel_update_does_not_create_the_channel() {
    let mut b = ChannelBank::empty(0, ChannelBankType::Input);
    let key = vec!["ch".to_string(), "2".to_string(), "trim".to_string()];
    let r = b.update(&key, 0, &Value::String("loud".to_string()));
    assert!(r.is_err());
    assert!(b.channels.get(2).is_none());
}

#[test]
fn unknown_channel_attribute_still_creates_the_channel() {
    let mut b = ChannelBank::empty(0, ChannelBankType::Input);
    let key = vec!["ch".to_string(), "2".to_string(), "mystery".to_string()];
    b.update(&key, 0, &Value::Int(1)).unwrap();
    assert_eq!(b.channels.get(2), Some(&ExtChannel::empty(2)));
}

#[test]
fn bank_type_parsing_and_segments() {
    assert_eq!(ChannelBankType::try_from("ibank").unwrap(), ChannelBankType::Input);
    assert_eq!(ChannelBankType::try_from("obank").unwrap(), ChannelBankType::Output);
    assert!(ChannelBankType::try_from("xbank").is_err());
    assert_eq!(ChannelBankType::Input.seg(), "ibank");
    assert_eq!(ChannelBankType::Output.seg(), "obank");
    assert_eq!(ChannelBankType::default(), ChannelBankType::Input);
    let b = ChannelBank::empty(3, ChannelBankType::Output);
    assert_eq!(b.seg(), "ext/obank/3");
}

#[test]
fn set_name_builds_the_bank_rename_request() {
    let b = ChannelBank::empty(0, ChannelBankType::Input);
    let r = b.set_name("Studio");
    assert_eq!(r.key, "ext/ibank/0/name");
    assert_eq!(r.val, Value::String("Studio".to_string()));
}

#[test]
fn set_channel_name_builds_the_channel_rename_request() {
    let b = ChannelBank::empty(1, ChannelBankType::Output);
    let r = b.set_channel_name(4, "Monitor L");
    assert_eq!(r.key, "ext/obank/1/ch/4/name");
    assert_eq!(r.val, Value::String("Monitor L".to_string()));
}

#[test]
fn set_channel_trim_picks_the_trim_variant_key() {
    let mut b = ChannelBank::empty(0, ChannelBankType::Input);
    // No such channel yet: no request can be built.
    assert!(b.set_channel_trim(2, -3).is_none());

    let key = vec!["ch".to_string(), "2".to_string(), "trim".to_string()];
    b.update(&key, 0, &Value::Int(0)).unwrap();
    let r = b.set_channel_trim(2, -3).expect("mono trim request");
    assert_eq!(r.key, "ext/ibank/0/ch/2/trim");
    assert_eq!(r.val, Value::Int(-3));

    let mut sb = ChannelBank::empty(0, ChannelBankType::Input);
    let skey = vec!["ch".to_string(), "7".to_string(), "stereoTrim".to_string()];
    sb.update(&skey, 0, &Value::Int(1)).unwrap();
    let r = sb.set_channel_trim(7, 5).expect("stereo trim request");
    assert_eq!(r.key, "ext/ibank/0/ch/7/stereoTrim");
    assert_eq!(r.val, Value::Int(5));

    // A channel without any observed trim cannot be addressed either.
    let mut nb = ChannelBank::empty(0, ChannelBankType::Input);
    let nkey = vec!["ch".to_string(), "1".to_string(), "name".to_string()];
    nb.update(&nkey, 0, &Value::String("x".to_string())).unwrap();
    assert!(nb.set_channel_trim(1, 2).is_none());
}

#[test]
fn ext_channel_set_trim_is_channel_local() {
    let mut ch = ExtChannel::empty(9);
    assert!(ch.set_trim(1).is_none());
    ch.set_mono_trim(0);
    let r = ch.set_trim(-2).unwrap();
    assert_eq!(r.key, "9/trim");
    assert_eq!(r.val, Value::Int(-2));
}

#[test]
fn independent_entries_apply_in_either_order() {
    let a = entry("ext/ibank/0/name", Value::String("Mic In".to_string()));
    let b = entry("ext/ibank/0/ch/2/trim", Value::Int(-6));
    let forward = seed_banks(ChannelBankType::Input, &vec![a.clone(), b.clone()]);
    let backward = seed_banks(ChannelBankType::Input, &vec![b, a]);
    let fb = forward.get(0).unwrap();
    let bb = backward.get(0).unwrap();
    assert_eq!(fb.name, bb.name);
    assert_eq!(fb.channels.get(2), bb.channels.get(2));
}

#[test]
fn trim_variant_order_is_the_one_exception() {
    let mono = entry("ext/ibank/0/ch/0/trim", Value::Int(1));
    let stereo = entry("ext/ibank/0/ch/0/stereoTrim", Value::Int(2));
    let mono_first = seed_banks(ChannelBankType::Input, &vec![mono.clone(), stereo.clone()]);
    let stereo_first = seed_banks(ChannelBankType::Input, &vec![stereo, mono]);
    let m = mono_first.get(0).unwrap().channels.get(0).unwrap().trim;
    let s = stereo_first.get(0).unwrap().channels.get(0).unwrap().trim;
    assert!(matches!(m, Some(Trim::Mono(_))));
    assert!(matches!(s, Some(Trim::Stereo(_))));
}

#[test]
fn last_write_wins_per_key() {
    let entries = vec![
        entry("ext/ibank/0/name", Value::String("first".to_string())),
        entry("ext/ibank/0/name", Value::String("second".to_string())),
    ];
    let banks = seed_banks(ChannelBankType::Input, &entries);
    assert_eq!(banks.get(0).unwrap().name, Some("second".to_string()));
}
