use dbus_bytestream::demarshal::{demarshal, get_alignment, DemarshalError};
use dbus_bytestream::marshal::Marshal;
use dbus_bytestream::value::{
    Array, BasicValue, Dictionary, Path, Signature, Struct, Value, Variant,
};

fn round_trip(v: &Value) -> Value {
    let mut buf = Vec::new();
    v.dbus_encode(&mut buf);
    let mut sig = v.get_type();
    let mut offset = 0;
    let r = demarshal(&mut buf, &mut offset, &mut sig).unwrap();
    assert_eq!(buf.len(), 0);
    assert_eq!(sig, "");
    r
}

fn sig(s: &str) -> Signature {
    Signature(s.to_string())
}

#[test]
fn test_demarshal_u32() {
    let mut buf = Vec::new();
    let x = 16 as u32;
    let mut sig = x.get_type().to_string();
    x.dbus_encode(&mut buf);

    let mut offset = 0;
    let v = demarshal(&mut buf, &mut offset, &mut sig).unwrap();
    assert_eq!(v, Value::BasicValue(BasicValue::Uint32(16)));
    assert_eq!(buf.len(), 0);
    assert_eq!(sig, "");
}

#[test]
fn test_demarshal_u32_offset() {
    let mut buf = Vec::new();
    buf.insert(0, 0);
    let x = 16 as u32;
    let mut sig = x.get_type();
    x.dbus_encode(&mut buf);

    buf.remove(0);
    let mut offset = 1;
    let v = demarshal(&mut buf, &mut offset, &mut sig).unwrap();
    assert_eq!(v, Value::BasicValue(BasicValue::Uint32(16)));
    assert_eq!(buf.len(), 0);
    assert_eq!(sig, "");
}

#[test]
fn demarshal_test_string() {
    let mut buf = Vec::new();
    let x = "swalter".to_string();
    let mut sig = x.get_type();
    x.dbus_encode(&mut buf);

    let mut offset = 0;
    let v = demarshal(&mut buf, &mut offset, &mut sig).unwrap();
    assert_eq!(v, Value::BasicValue(BasicValue::String("swalter".to_string())));
    assert_eq!(buf.len(), 0);
    assert_eq!(sig, "");
}

#[test]
fn demarshal_test_array() {
    let mut buf = Vec::new();
    let x = vec![1 as u32, 2 as u32, 3 as u32];
    let mut sig = "au".to_string();
    x.dbus_encode(&mut buf);

    let mut offset = 0;
    let v = demarshal(&mut buf, &mut offset, &mut sig).unwrap();
    let arr = match v {
        Value::Array(x) => x,
        _ => panic!("Bad return from demarshal {:?}", v),
    };
    let golden = vec![
        Value::BasicValue(BasicValue::Uint32(1)),
        Value::BasicValue(BasicValue::Uint32(2)),
        Value::BasicValue(BasicValue::Uint32(3)),
    ];
    assert_eq!(arr.objects, golden);
    assert_eq!(buf.len(), 0);
    assert_eq!(sig, "");
}

#[test]
fn test_array_bytes() {
    let mut buf = Vec::new();
    let x = vec![1 as u8, 2 as u8, 3 as u8];
    let mut sig = "ay".to_string();
    x.dbus_encode(&mut buf);

    let mut offset = 0;
    let v = demarshal(&mut buf, &mut offset, &mut sig).unwrap();
    let arr = match v {
        Value::Array(x) => x,
        _ => panic!("Bad return from demarshal {:?}", v),
    };
    let golden = vec![
        Value::BasicValue(BasicValue::Byte(1)),
        Value::BasicValue(BasicValue::Byte(2)),
        Value::BasicValue(BasicValue::Byte(3)),
    ];
    assert_eq!(arr.objects, golden);
    assert_eq!(buf.len(), 0);
    assert_eq!(sig, "");
}

#[test]
fn test_struct() {
    let mut buf = Vec::new();
    let x = "swalter".to_string();
    let mut sig = "(ss)".to_string();
    x.dbus_encode(&mut buf);
    x.dbus_encode(&mut buf);

    let mut offset = 0;
    let v = demarshal(&mut buf, &mut offset, &mut sig).unwrap();
    assert_eq!(buf.len(), 0);
    assert_eq!(sig, "");
    let s = match v {
        Value::Struct(x) => x,
        _ => panic!("Bad return from demarshal {:?}", v),
    };
    assert_eq!(s.signature, Signature("(ss)".to_string()));
}

#[test]
fn round_trip_primitives() {
    let vals = vec![
        Value::BasicValue(BasicValue::Byte(200)),
        Value::BasicValue(BasicValue::Boolean(true)),
        Value::BasicValue(BasicValue::Int16(-300)),
        Value::BasicValue(BasicValue::Uint16(65000)),
        Value::BasicValue(BasicValue::Int32(-70000)),
        Value::BasicValue(BasicValue::Uint32(4000000000)),
        Value::BasicValue(BasicValue::Int64(-5)),
        Value::BasicValue(BasicValue::Uint64(u64::MAX)),
        Value::BasicValue(BasicValue::String("h\u{e9}llo".to_string())),
        Value::BasicValue(BasicValue::ObjectPath(Path("/a/b".to_string()))),
        Value::BasicValue(BasicValue::Signature(sig("a{sv}"))),
        Value::Double(1.5f64.to_bits()),
    ];
    for v in vals.iter() {
        assert_eq!(&round_trip(v), v);
    }
}

#[test]
fn round_trip_nested() {
    let inner = Value::Struct(Struct {
        objects: vec![
            Value::BasicValue(BasicValue::Byte(1)),
            Value::BasicValue(BasicValue::Uint64(2)),
        ],
        signature: sig("(yt)"),
    });
    let arr = Value::Array(Array { objects: vec![], signature: sig("a(yt)") });
    let v = Value::Struct(Struct {
        objects: vec![
            Value::BasicValue(BasicValue::Byte(9)),
            inner,
            arr,
            Value::Variant(Variant {
                object: Box::new(Value::BasicValue(BasicValue::Int32(-4))),
                signature: sig("i"),
            }),
        ],
        signature: sig("(y(yt)a(yt)v)"),
    });
    assert_eq!(round_trip(&v), v);
}

#[test]
fn round_trip_dictionary() {
    let d = Value::Dictionary(
        Dictionary::new(
            vec![
                (BasicValue::String("a".to_string()), Value::BasicValue(BasicValue::Uint32(1))),
                (BasicValue::String("b".to_string()), Value::BasicValue(BasicValue::Uint32(2))),
            ],
            sig("a{su}"),
        )
        .unwrap(),
    );
    assert_eq!(round_trip(&d), d);
}

#[test]
fn duplicate_keys_are_refused() {
    let e = Dictionary::new(
        vec![
            (BasicValue::Byte(1), Value::BasicValue(BasicValue::Byte(10))),
            (BasicValue::Byte(1), Value::BasicValue(BasicValue::Byte(20))),
        ],
        sig("a{yy}"),
    );
    assert!(e.is_none());
}

#[test]
fn later_duplicate_key_replaces_value() {
    // a{yy} holding (1, 10) then (1, 20)
    let mut buf = vec![10, 0, 0, 0, 0, 0, 0, 0, 1, 10, 0, 0, 0, 0, 0, 0, 1, 20];
    let mut s = "a{yy}".to_string();
    let mut offset = 0;
    let back = demarshal(&mut buf, &mut offset, &mut s).unwrap();
    let expected = Dictionary::new(
        vec![(BasicValue::Byte(1), Value::BasicValue(BasicValue::Byte(20)))],
        sig("a{yy}"),
    )
    .unwrap();
    assert_eq!(back, Value::Dictionary(expected));
}

#[test]
fn struct_must_close_with_its_own_bracket() {
    let mut buf = vec![0; 8];
    let mut s = "(i}".to_string();
    let mut offset = 0;
    assert_eq!(demarshal(&mut buf, &mut offset, &mut s).unwrap_err(), DemarshalError::MismatchedParens);
}

#[test]
fn array_too_long_is_rejected() {
    let mut buf = vec![0x01, 0x00, 0x00, 0x04, 0, 0, 0, 0];
    let mut sig = "ay".to_string();
    let mut offset = 0;
    let e = demarshal(&mut buf, &mut offset, &mut sig).unwrap_err();
    assert_eq!(e, DemarshalError::ElementTooBig);
    assert_eq!(buf.len(), 8);
    let mut buf = vec![0x00, 0x00, 0x00, 0x04];
    let mut sig = "ay".to_string();
    let e = demarshal(&mut buf, &mut offset, &mut sig).unwrap_err();
    assert_eq!(e, DemarshalError::MessageTooShort);
}

#[test]
fn decoding_errors() {
    let mut offset = 0;
    let mut buf = vec![2, 0, 0, 0];
    let mut s = "b".to_string();
    assert_eq!(demarshal(&mut buf, &mut offset, &mut s).unwrap_err(), DemarshalError::CorruptedMessage);
    let mut buf = vec![1, 0, 0, 0, 0xff, 0];
    let mut s = "s".to_string();
    assert_eq!(demarshal(&mut buf, &mut offset, &mut s).unwrap_err(), DemarshalError::BadUTF8);
    let mut buf = vec![1, 0, 0, 0, b'a', 1];
    let mut s = "s".to_string();
    assert_eq!(demarshal(&mut buf, &mut offset, &mut s).unwrap_err(), DemarshalError::CorruptedMessage);
    let mut buf = vec![0; 8];
    let mut s = "z".to_string();
    assert_eq!(demarshal(&mut buf, &mut offset, &mut s).unwrap_err(), DemarshalError::BadSignature);
    let mut s = "(ii".to_string();
    assert_eq!(demarshal(&mut buf, &mut offset, &mut s).unwrap_err(), DemarshalError::MismatchedParens);
    let mut buf = vec![0, 0];
    let mut s = "u".to_string();
    assert_eq!(demarshal(&mut buf, &mut offset, &mut s).unwrap_err(), DemarshalError::MessageTooShort);
}

#[test]
fn only_the_first_type_is_consumed() {
    let mut buf = Vec::new();
    7u8.dbus_encode(&mut buf);
    8u32.dbus_encode(&mut buf);
    let mut sig = "yu".to_string();
    let mut offset = 0;
    let v = demarshal(&mut buf, &mut offset, &mut sig).unwrap();
    assert_eq!(v, Value::BasicValue(BasicValue::Byte(7)));
    assert_eq!(sig, "u");
    assert_eq!(offset, 1);
    let v = demarshal(&mut buf, &mut offset, &mut sig).unwrap();
    assert_eq!(v, Value::BasicValue(BasicValue::Uint32(8)));
    assert_eq!(offset, 8);
}

#[test]
fn alignment_table() {
    assert_eq!(get_alignment('y'), 1);
    assert_eq!(get_alignment('n'), 2);
    assert_eq!(get_alignment('s'), 4);
    assert_eq!(get_alignment('a'), 4);
    assert_eq!(get_alignment('('), 8);
    assert_eq!(get_alignment('d'), 8);
    assert_eq!(get_alignment('v'), 1);
}
