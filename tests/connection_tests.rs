use crypto::digest::Digest;
use rustc_serialize::hex::ToHex;

use dbus_bytestream::connection::{
    cookie_data_line, decimal_bytes, find_cookie, is_ok, parse_data_line, reply_serial, AuthAction,
    AuthState, Authenticator, ConnectionState, ReplyWait,
};
use dbus_bytestream::message::{create_method_call, create_method_return, Message};
use dbus_bytestream::value::{BasicValue, Value};

fn tagged_return(serial: u32, tag: u32) -> Message {
    create_method_return(serial).add_arg(&tag)
}

fn tag_of(m: &Message) -> u32 {
    match m.get_body().unwrap().unwrap()[0] {
        Value::BasicValue(BasicValue::Uint32(t)) => t,
        _ => panic!("no tag"),
    }
}

#[test]
fn serials_count_up_from_one() {
    let mut st = ConnectionState::new();
    assert_eq!(st.next_serial(), 1);
    assert_eq!(st.next_serial(), 2);
    let (bytes, serial) = st.frame(create_method_call("d", "/p", "i", "m"));
    assert_eq!(serial, 3);
    assert_eq!(&bytes[8..12], &[3, 0, 0, 0][..]);
    assert_eq!(bytes.len() % 8, 0);
}

#[test]
fn reply_correlation_keeps_arrival_order() {
    let mut st = ConnectionState::new();
    let (_bytes, serial) = st.frame(create_method_call("d", "/p", "i", "m"));
    let incoming = vec![tagged_return(99, 1), tagged_return(serial, 2), tagged_return(99, 3)];
    let mut wait = ReplyWait::new(serial);
    let mut reply = None;
    let mut socket = incoming.into_iter();
    while reply.is_none() {
        let m = st.pop_message().unwrap_or_else(|| socket.next().unwrap());
        reply = wait.offer(m);
    }
    wait.finish(&mut st);
    let reply = reply.unwrap();
    assert_eq!(reply_serial(&reply), Some(serial));
    assert_eq!(tag_of(&reply), 2);
    let first = st.pop_message().unwrap_or_else(|| socket.next().unwrap());
    let second = st.pop_message().unwrap_or_else(|| socket.next().unwrap());
    assert_eq!((tag_of(&first), tag_of(&second)), (1, 3));
    assert_eq!(reply_serial(&first), Some(99));
    assert!(st.pop_message().is_none());
}

#[test]
fn requeued_messages_go_before_older_ones() {
    let mut st = ConnectionState::new();
    st.push_queue(std::collections::VecDeque::from(vec![tagged_return(5, 10)]));
    let mut wait = ReplyWait::new(1);
    assert!(wait.offer(tagged_return(6, 20)).is_none());
    assert!(wait.offer(tagged_return(7, 30)).is_none());
    wait.finish(&mut st);
    let tags: Vec<u32> = (0..3).map(|_| tag_of(&st.pop_message().unwrap())).collect();
    assert_eq!(tags, vec![20, 30, 10]);
}

#[test]
fn uid_is_sent_as_hex_of_decimal() {
    assert_eq!(decimal_bytes(0), b"0".to_vec());
    assert_eq!(decimal_bytes(1000), b"1000".to_vec());
    let (a, line) = Authenticator::start(1000);
    assert_eq!(line, "AUTH EXTERNAL 31303030\r\n");
    assert_eq!(a.state(), AuthState::External);
}

#[test]
fn external_accepted() {
    let (mut a, _) = Authenticator::start(0);
    assert!(is_ok("OK 1234\r\n"));
    assert!(matches!(a.on_line("OK 1234\r\n"), AuthAction::Begin));
    assert_eq!(a.state(), AuthState::Done);
}

#[test]
fn cookie_sha1_after_external_is_refused() {
    let (mut a, _) = Authenticator::start(1000);
    match a.on_line("REJECTED EXTERNAL DBUS_COOKIE_SHA1\r\n") {
        AuthAction::Send(l) => assert_eq!(l, "AUTH DBUS_COOKIE_SHA1 31303030\r\n"),
        other => panic!("unexpected {:?}", other),
    }
    let challenge = "org_freedesktop_general 42 5eed5eed";
    let data = format!("DATA {}\r\n", challenge.as_bytes().to_hex());
    match a.on_line(&data) {
        AuthAction::ReadCookie(ctx, id) => {
            assert_eq!(ctx, "org_freedesktop_general");
            assert_eq!(id, "42");
        }
        other => panic!("unexpected {:?}", other),
    }
    let keyring = "41 1500000000 aaaa\n42 1500000001 c0ffee\n";
    let cookie = find_cookie(keyring, "42").unwrap();
    assert_eq!(cookie, "c0ffee");
    let client = [1u8; 16];
    let line = match a.on_cookie_with(Some(&cookie), &client) {
        AuthAction::Send(l) => l,
        other => panic!("unexpected {:?}", other),
    };
    let client_hex = client.to_hex();
    let mut h = crypto::sha1::Sha1::new();
    h.input_str(&format!("5eed5eed:{}:c0ffee", client_hex));
    let digest = h.result_str();
    let expected = format!("DATA {}\r\n", format!("{} {}", client_hex, digest).as_bytes().to_hex());
    assert_eq!(line, expected);
    assert_eq!(line, cookie_data_line(&client, &digest));
    assert!(matches!(a.on_line("OK 0123456789abcdef\r\n"), AuthAction::Begin));
    assert_eq!(a.state(), AuthState::Done);
}

#[test]
fn anonymous_is_the_last_resort() {
    let (mut a, _) = Authenticator::start(5);
    a.on_line("REJECTED\r\n");
    match a.on_line("ERROR\r\n") {
        AuthAction::Send(l) => assert_eq!(l, "AUTH ANONYMOUS 6c69626462757320312e382e3132\r\n"),
        other => panic!("unexpected {:?}", other),
    }
    assert!(matches!(a.on_line("REJECTED\r\n"), AuthAction::Fail));
    assert_eq!(a.state(), AuthState::Failed);
}

#[test]
fn socket_failure_moves_to_next_mechanism() {
    let (mut a, _) = Authenticator::start(5);
    assert!(matches!(a.on_failure(), AuthAction::Send(_)));
    assert_eq!(a.state(), AuthState::CookieData);
    a.on_failure();
    assert_eq!(a.state(), AuthState::Anonymous);
    assert!(matches!(a.on_failure(), AuthAction::Fail));
}

#[test]
fn data_line_parsing() {
    let line = format!("DATA {}\r\n", "ctx 7 abc".as_bytes().to_hex());
    assert_eq!(
        parse_data_line(&line),
        Some(("ctx".to_string(), "7".to_string(), "abc".to_string()))
    );
    assert_eq!(parse_data_line("DATA zz\r\n"), None);
    assert_eq!(parse_data_line("OK x\r\n"), None);
    let two = format!("DATA {}\r\n", "ctx 7".as_bytes().to_hex());
    assert_eq!(parse_data_line(&two), None);
}

#[test]
fn cookie_lookup_is_permissive_but_strict_on_fields() {
    assert_eq!(find_cookie("1 2 3\n", "9"), None);
    assert_eq!(find_cookie("9 2\n9 2 3\n", "9"), None);
    assert_eq!(find_cookie("", "1"), None);
}

#[test]
fn cookie_reply_with_fresh_challenge_has_full_length() {
    let (mut a, _) = Authenticator::start(7);
    a.on_line("REJECTED\r\n");
    let data = format!("DATA {}\r\n", "ctx 1 srv".as_bytes().to_hex());
    a.on_line(&data);
    match a.on_cookie(Some("abc")) {
        AuthAction::Send(l) => {
            // "DATA " + hex of (32 hex digits, a space, 40 hex digits) + CRLF
            assert_eq!(l.len(), 5 + 2 * (32 + 1 + 40) + 2);
            assert!(l.starts_with("DATA "));
        }
        other => panic!("unexpected {:?}", other),
    }
    assert_eq!(a.state(), AuthState::CookieReply);
}
