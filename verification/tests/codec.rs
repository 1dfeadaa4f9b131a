//! Behavior of the value codec: decoding the store's string micro-encoding
//! and encoding values back to wire strings.

use motu::value::{MEnum, Value, ValueError};

fn decoded(raw: &str, key: &str) -> Value {
    Value::String(raw.to_string()).decode(key).expect("decode should succeed")
}

#[test]
fn bool_literal_true_decodes() {
    let v = decoded("bool:1", "ext/ibank/0/pad");
    assert!(matches!(v, Value::Bool(true)));
}

#[test]
fn bool_literal_false_decodes() {
    let v = decoded("bool:0", "ext/ibank/0/pad");
    assert!(matches!(v, Value::Bool(false)));
}

#[test]
fn bool_literal_other_digit_is_false() {
    let v = decoded("bool:7", "ext/ibank/0/pad");
    assert!(matches!(v, Value::Bool(false)));
}

#[test]
fn name_bearing_key_skips_decoding() {
    let v = decoded("bool:1", "ext/ibank/0/name");
    assert_eq!(v, Value::String("bool:1".to_string()));
    let v = decoded("a:b:c", "ext/obank/2/ch/1/defaultName");
    assert_eq!(v, Value::String("a:b:c".to_string()));
    // Case-insensitive: `Name` anywhere in the key is enough.
    let v = decoded("x:y", "someNAMEish/key");
    assert_eq!(v, Value::String("x:y".to_string()));
}

#[test]
fn enum_encoding_decodes() {
    let v = decoded("enum:2:0=Off:1=On:2=Auto", "ext/ibank/0/smux");
    match v {
        Value::Enum(MEnum { value, definitions }) => {
            assert_eq!(value, 2);
            assert_eq!(
                definitions,
                vec![
                    (0, "Off".to_string()),
                    (1, "On".to_string()),
                    (2, "Auto".to_string())
                ]
            );
        }
        other => panic!("expected an enum, got {:?}", other),
    }
}

#[test]
fn colon_string_decodes_to_pair() {
    let v = decoded("a:b:c", "ext/ibank/0/src");
    assert_eq!(
        v,
        Value::Pair(vec!["a".to_string(), "b".to_string(), "c".to_string()])
    );
}

#[test]
fn plain_string_passes_through() {
    let v = decoded("single", "ext/ibank/0/src");
    assert_eq!(v, Value::String("single".to_string()));
}

#[test]
fn empty_string_passes_through() {
    let v = decoded("", "ext/ibank/0/src");
    assert_eq!(v, Value::String(String::new()));
}

#[test]
fn non_string_values_pass_through() {
    let v = Value::Int(42).decode("ext/ibank/0/trim").unwrap();
    assert_eq!(v, Value::Int(42));
    let v = Value::Bool(true).decode("whatever").unwrap();
    assert_eq!(v, Value::Bool(true));
}

#[test]
fn malformed_enum_selector_fails() {
    let r = Value::String("enum:x:0=Off".to_string()).decode("k");
    assert_eq!(r.unwrap_err(), ValueError::ParseIntError);
}

#[test]
fn enum_without_selector_fails() {
    let r = Value::String("enum".to_string()).decode("k");
    assert_eq!(r.unwrap_err(), ValueError::ParseIntError);
}

#[test]
fn enum_option_without_equals_fails() {
    let r = Value::String("enum:1:Off".to_string()).decode("k");
    assert_eq!(r.unwrap_err(), ValueError::NoValue);
}

#[test]
fn enum_option_with_bad_key_fails() {
    let r = Value::String("enum:1:x=Off".to_string()).decode("k");
    assert_eq!(r.unwrap_err(), ValueError::ParseIntError);
}

#[test]
fn enum_option_label_keeps_extra_equals() {
    let v = decoded("enum:0:0=a=b", "k");
    match v {
        Value::Enum(e) => assert_eq!(e.definitions, vec![(0, "a=b".to_string())]),
        other => panic!("expected an enum, got {:?}", other),
    }
}

#[test]
fn encode_scalars() {
    assert_eq!(Value::Int(7).encode(), "7");
    assert_eq!(Value::Int(-12).encode(), "-12");
    assert_eq!(Value::Int(i64::MIN).encode(), "-9223372036854775808");
    assert_eq!(Value::Bool(true).encode(), "bool:1");
    assert_eq!(Value::Bool(false).encode(), "bool:0");
    assert_eq!(Value::Float("2.5".to_string()).encode(), "2.5");
    assert_eq!(Value::String("hi".to_string()).encode(), "hi");
}

#[test]
fn encode_enum_is_its_selector() {
    let e = Value::Enum(MEnum {
        value: 2,
        definitions: vec![(0, "Off".to_string()), (2, "Auto".to_string())],
    });
    assert_eq!(e.encode(), "2");
}

#[test]
fn encode_pair_rejoins() {
    let p = Value::Pair(vec!["a".to_string(), "b".to_string(), "c".to_string()]);
    assert_eq!(p.encode(), "a:b:c");
}

#[test]
fn round_trip_pair() {
    assert_eq!(decoded("a:b:c", "k").encode(), "a:b:c");
}

#[test]
fn round_trip_bool() {
    assert_eq!(decoded("bool:1", "k").encode(), "bool:1");
    assert_eq!(decoded("bool:0", "k").encode(), "bool:0");
}

#[test]
fn round_trip_plain_and_empty() {
    assert_eq!(decoded("single", "k").encode(), "single");
    assert_eq!(decoded("", "k").encode(), "");
}

#[test]
fn round_trip_almost_bool_shapes() {
    // Not `bool:<digit>`, so these split into pairs and rejoin exactly.
    assert_eq!(decoded("bool:12", "k").encode(), "bool:12");
    assert_eq!(decoded("bool:", "k").encode(), "bool:");
}

#[test]
fn duplicate_preserves_values() {
    let vals = vec![
        Value::String("s".to_string()),
        Value::Float("1.5".to_string()),
        Value::Int(-3),
        Value::Bool(true),
        Value::Enum(MEnum {
            value: 1,
            definitions: vec![(1, "On".to_string())],
        }),
        Value::Pair(vec!["x".to_string(), "y".to_string()]),
    ];
    for v in vals {
        assert_eq!(v.duplicate(), v);
    }
}
