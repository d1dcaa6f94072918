use std::str::FromStr;

use dbus_bytestream::address::{
    dbus_unescape, dbus_unescape_str, AddrKeyVals, Error, ServerAddress, UnescapeError,
};

#[test]
fn test_unescape() {
    assert_eq!(dbus_unescape(b"hello").unwrap(), b"hello");
    assert_eq!(dbus_unescape(b"\\").unwrap(), b"\\");
    assert_eq!(dbus_unescape(b"%61").unwrap(), b"a");
    assert_eq!(dbus_unescape(b"%5c").unwrap(), b"\\");
    assert_eq!(dbus_unescape(b"%").unwrap_err(), UnescapeError::ShortEscapeSequence);
    assert_eq!(dbus_unescape(b"%1").unwrap_err(), UnescapeError::ShortEscapeSequence);
}

#[test]
fn test_key_vals() {
    let mut a = AddrKeyVals::new("one=two");
    assert_eq!(a.next().unwrap().unwrap(), ("one".to_string(), "two".to_string()));
    assert!(a.next().is_none());

    let mut a = AddrKeyVals::new("foo=bar,");
    assert_eq!(a.next().unwrap().unwrap(), ("foo".to_string(), "bar".to_string()));
    assert!(a.next().is_none());

    let mut a = AddrKeyVals::new("foo=bar,a=b");
    assert_eq!(a.next().unwrap().unwrap(), ("foo".to_string(), "bar".to_string()));
    assert_eq!(a.next().unwrap().unwrap(), ("a".to_string(), "b".to_string()));
    assert!(a.next().is_none());

    let mut a = AddrKeyVals::new("foobar,a=b");
    assert_eq!(a.next().unwrap().unwrap_err().0, Error::MalformedKeyValue);
}

#[test]
fn test_server_address() {
    assert_eq!(ServerAddress::from_str("unix").unwrap_err().0, Error::BadTransportSeparator);
    ServerAddress::from_str("unix:path=/var/run/dbus/system_bus_socket").unwrap();
    assert_eq!(
        ServerAddress::from_str("unix:path=/var/run/dbus/system_bus_socket,foo=bar").unwrap_err().0,
        Error::UnknownOption
    );
    assert_eq!(ServerAddress::from_str("unix:").unwrap_err().0, Error::MissingOption);
}

#[test]
fn unix_path_is_kept() {
    match ServerAddress::from_str("unix:path=/var/run/dbus/system_bus_socket").unwrap() {
        ServerAddress::Unix(u) => assert_eq!(u.path(), "/var/run/dbus/system_bus_socket"),
        _ => panic!("expected a unix address"),
    }
}

#[test]
fn unknown_option_names_the_key() {
    let e = ServerAddress::from_str("unix:path=/x,foo=bar").unwrap_err();
    assert_eq!(e, (Error::UnknownOption, "foo".to_string()));
}

#[test]
fn abstract_path_starts_with_nul() {
    match ServerAddress::from_str("unix:abstract=foo").unwrap() {
        ServerAddress::Unix(u) => assert_eq!(u.path().as_bytes(), &[0u8, b'f', b'o', b'o'][..]),
        _ => panic!("expected a unix address"),
    }
}

#[test]
fn guid_is_ignored_and_escapes_are_decoded() {
    match ServerAddress::from_str("unix:guid=1234,path=/tmp/a%20b").unwrap() {
        ServerAddress::Unix(u) => assert_eq!(u.path(), "/tmp/a b"),
        _ => panic!("expected a unix address"),
    }
}

#[test]
fn path_and_abstract_conflict() {
    let e = ServerAddress::from_str("unix:path=/a,abstract=b").unwrap_err();
    assert_eq!(e.0, Error::ConflictingOptions);
}

#[test]
fn tcp_address_needs_host_and_port() {
    match ServerAddress::from_str("tcp:host=localhost,port=4242,guid=x").unwrap() {
        ServerAddress::Tcp(t) => {
            assert_eq!(t.host(), "localhost");
            assert_eq!(t.port(), "4242");
        }
        _ => panic!("expected a tcp address"),
    }
    let e = ServerAddress::from_str("tcp:host=localhost").unwrap_err();
    assert_eq!(e, (Error::MissingOption, "No port for tcp socket".to_string()));
    let e = ServerAddress::from_str("tcp:port=1").unwrap_err();
    assert_eq!(e, (Error::MissingOption, "No host for tcp socket".to_string()));
    let e = ServerAddress::from_str("tcp:host=a,host=b,port=1").unwrap_err();
    assert_eq!(e.0, Error::ConflictingOptions);
}

#[test]
fn unknown_transport_names_it() {
    let e = ServerAddress::from_str("udp:host=x").unwrap_err();
    assert_eq!(e, (Error::UnknownTransport, "udp".to_string()));
    let e = ServerAddress::from_str("unix:path=/a:b").unwrap_err();
    assert_eq!(e.0, Error::BadTransportSeparator);
}

#[test]
fn malformed_key_value_names_the_option() {
    let e = ServerAddress::from_str("unix:path").unwrap_err();
    assert_eq!(e, (Error::MalformedKeyValue, "path".to_string()));
}

#[test]
fn bad_hex_escape() {
    assert_eq!(dbus_unescape(b"%zz").unwrap_err(), UnescapeError::HexConversionError);
    assert_eq!(dbus_unescape(b"a%4").unwrap_err(), UnescapeError::ShortEscapeSequence);
    assert_eq!(dbus_unescape(b"%41%42c").unwrap(), b"ABc");
}

#[test]
fn escape_that_is_not_utf8() {
    assert_eq!(dbus_unescape(&[b'%', 0xff, b'1']).unwrap_err(), UnescapeError::EscapeNotUtf8);
    assert_eq!(dbus_unescape_str("%ff").unwrap_err(), UnescapeError::EscapeNotUtf8);
    assert_eq!(dbus_unescape_str("%c3%a9").unwrap(), "\u{e9}");
}

#[test]
fn unescape_error_in_option() {
    let e = ServerAddress::from_str("unix:path=%").unwrap_err();
    assert_eq!(e, (Error::UnescapeError(UnescapeError::ShortEscapeSequence), String::new()));
}
