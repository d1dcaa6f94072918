use dbus_bytestream::marshal::{pad_to_multiple, Marshal};
use dbus_bytestream::value::{BasicValue, Signature, Value, Variant};

#[test]
fn test_ints() {
    let x: u32 = 1;
    let x_bytes = vec![0, 0, 0, 0, 1, 0, 0, 0];
    // Start with a non-empty buffer to test padding
    let mut buf = vec![0];
    let len = x.dbus_encode(&mut buf);
    assert_eq!(len, 4);
    assert_eq!(buf, x_bytes);
    assert_eq!("u", x.get_type());
}

#[test]
fn marshal_test_string() {
    let x = "abc123";
    let x_bytes = vec![6, 0, 0, 0, 'a' as u8, 'b' as u8, 'c' as u8, '1' as u8, '2' as u8, '3' as u8, 0];
    let mut x_buf = Vec::new();
    let len = x.dbus_encode(&mut x_buf);
    assert_eq!(len, x_bytes.len());
    assert_eq!(x_buf, x_bytes);
}

#[test]
fn marshal_test_array() {
    let empty_array: Vec<u8> = Vec::new();
    let mut bytes = vec![0, 0, 0, 0];
    let mut buf = Vec::new();
    let len = empty_array.dbus_encode(&mut buf);
    assert_eq!(buf, bytes);
    assert_eq!(len, buf.len());

    let array: Vec<u32> = vec![1, 2, 3];
    bytes = vec![12, 0, 0, 0, 1, 0, 0, 0, 2, 0, 0, 0, 3, 0, 0, 0];
    buf = Vec::new();
    array.dbus_encode(&mut buf);
    assert_eq!(buf, bytes);
}

#[test]
fn test_variant() {
    let v = Variant {
        object: Box::new(Value::BasicValue(BasicValue::Uint32(42))),
        signature: Signature("u".to_string()),
    };
    assert_eq!(v.get_type(), "v");
    let v_bytes = vec![1, 'u' as u8, 0, 0, 42, 0, 0, 0];

    let mut buf = Vec::new();
    let len = v.dbus_encode(&mut buf);
    assert_eq!(len, 8);
    assert_eq!(buf, v_bytes);
}

#[test]
fn byte_then_u32_is_eight_bytes() {
    let mut buf = Vec::new();
    7u8.dbus_encode(&mut buf);
    9u32.dbus_encode(&mut buf);
    assert_eq!(buf, vec![7, 0, 0, 0, 9, 0, 0, 0]);
}

#[test]
fn padding_counts_only_payload() {
    let mut buf = vec![1, 2, 3];
    let n = 5u64.dbus_encode(&mut buf);
    assert_eq!(n, 8);
    assert_eq!(buf.len(), 16);
    let mut buf = vec![1];
    pad_to_multiple(&mut buf, 4);
    assert_eq!(buf, vec![1, 0, 0, 0]);
}

#[test]
fn signed_values_are_twos_complement() {
    let mut buf = Vec::new();
    (-2i16).dbus_encode(&mut buf);
    (-1i32).dbus_encode(&mut buf);
    assert_eq!(buf, vec![0xfe, 0xff, 0, 0, 0xff, 0xff, 0xff, 0xff]);
    let mut buf = Vec::new();
    true.dbus_encode(&mut buf);
    assert_eq!(buf, vec![1, 0, 0, 0]);
}

#[test]
fn empty_array_of_structs_is_aligned() {
    let v = Value::Array(dbus_bytestream::value::Array {
        objects: Vec::new(),
        signature: Signature("a(ii)".to_string()),
    });
    let mut buf = Vec::new();
    let n = v.dbus_encode(&mut buf);
    assert_eq!(buf, vec![0, 0, 0, 0, 0, 0, 0, 0]);
    assert_eq!(n, 8);
}

#[test]
fn signature_of_values() {
    assert_eq!(vec![1u32, 2].get_type(), "au");
    assert_eq!("x".get_type(), "s");
    assert_eq!(Value::Double(0).get_type(), "d");
}

#[test]
fn empty_array_pads_to_element_alignment() {
    let empty: Vec<u64> = Vec::new();
    let mut buf = Vec::new();
    let n = empty.dbus_encode(&mut buf);
    assert_eq!(buf, vec![0, 0, 0, 0, 0, 0, 0, 0]);
    assert_eq!(n, 8);
    assert_eq!(empty.get_type(), "at");

    let one: Vec<u64> = vec![1];
    let mut buf = Vec::new();
    one.dbus_encode(&mut buf);
    assert_eq!(buf, vec![8, 0, 0, 0, 0, 0, 0, 0, 1, 0, 0, 0, 0, 0, 0, 0]);
    let nested: Vec<Vec<u8>> = Vec::new();
    assert_eq!(nested.get_type(), "aay");
}
