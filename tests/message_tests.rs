use dbus_bytestream::connection::{header_fields_len, header_padding, parse_fixed_header, parse_header_fields};
use dbus_bytestream::message::{
    create_error, create_method_call, create_method_return, create_signal, HEADER_FIELD_SIGNATURE,
    MESSAGE_TYPE_METHOD_CALL,
};
use dbus_bytestream::value::{BasicValue, Signature, Value};

#[test]
fn test_msg() {
    create_method_call("foo", "bar", "baz", "floob").add_arg(&1).add_arg(&2);
}

#[test]
fn method_call_args_extend_signature_and_body() {
    let m = create_method_call("a", "/b", "c", "d").add_arg(&1_i32).add_arg(&"x");
    let sig = m.get_header(HEADER_FIELD_SIGNATURE).unwrap();
    assert_eq!(*sig.object, Value::BasicValue(BasicValue::Signature(Signature("is".to_string()))));
    assert_eq!(sig.signature, Signature("g".to_string()));
    let body = m.get_body().unwrap().unwrap();
    assert_eq!(
        body,
        vec![
            Value::BasicValue(BasicValue::Int32(1)),
            Value::BasicValue(BasicValue::String("x".to_string())),
        ]
    );
    assert_eq!(m.message_type.0, MESSAGE_TYPE_METHOD_CALL);
    assert_eq!(m.headers.len(), 5);
}

#[test]
fn empty_body_has_no_values() {
    let m = create_signal("/p", "i.f", "m");
    assert!(m.get_body().unwrap().is_none());
    assert_eq!(m.headers.len(), 3);
}

#[test]
fn header_round_trip() {
    let mut m = create_error("org.example.Failed", 7).add_arg(&"why");
    m.serial = 12;
    let mut head = Vec::new();
    let n = m.dbus_encode(&mut head);
    assert_eq!(n, head.len());
    assert_eq!(head.len() % 8, 0);
    assert_eq!(&head[0..4], &[b'l', 3, 0, 1][..]);

    let (fixed, body_len) = parse_fixed_header(&head[0..12]).unwrap();
    assert_eq!(body_len as usize, m.body.len());
    assert_eq!(fixed.serial, 12);
    assert_eq!(fixed.message_type.0, 3);
    assert!(!fixed.big_endian);

    let len = header_fields_len(&head[12..16]).unwrap() as usize;
    let (fields, end) = parse_header_fields(&head[12..16 + len]).unwrap();
    assert_eq!(fields.len(), 3);
    assert_eq!(fields[1].0, 4);
    assert_eq!(
        *fields[1].1.object,
        Value::BasicValue(BasicValue::String("org.example.Failed".to_string()))
    );
    assert_eq!(end + header_padding(end), head.len());
}

#[test]
fn short_headers_are_rejected() {
    assert!(parse_fixed_header(&[b'l', 1, 0]).is_err());
    assert!(header_fields_len(&[1, 2]).is_err());
    assert_eq!(header_padding(13), 3);
    assert_eq!(header_padding(16), 0);
}

#[test]
fn method_return_carries_reply_serial() {
    let m = create_method_return(41);
    let v = m.get_header(5).unwrap();
    assert_eq!(*v.object, Value::BasicValue(BasicValue::Uint32(41)));
    assert_eq!(m.decode_header_u32(5), Some(41));
}

#[test]
fn output_is_always_little_endian() {
    let mut m = create_method_return(3);
    m.big_endian = true;
    let mut head = Vec::new();
    m.dbus_encode(&mut head);
    assert_eq!(head[0], b'l');
    assert_eq!(&head[8..12], &[0, 0, 0, 0][..]);
}
