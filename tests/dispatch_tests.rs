use std::cell::Cell;

use dbus_bytestream::address::Error as AddrError;
use dbus_bytestream::connection;
use dbus_bytestream::dispatch::connection_err_string;
use dbus_bytestream::dispatch::message_types::MessageDecodeError;
use dbus_bytestream::dispatch::message_types::{decode_message, MessageType, MethodCall, Signal};
use dbus_bytestream::dispatch::{
    method_reply, DispatchError, HandlerChain, MessageDispatcher, MessageHandler, MessageSender,
    MessageSenderWrapper, MethodHandler, MethodRetVal, NoMatchHandler, SignalHandler,
};
use dbus_bytestream::message::{self, Message};
use dbus_bytestream::value::{BasicValue, Value};

#[derive(Default)]
struct DummySender {
    msgs: Vec<MessageType>,
}

impl DummySender {
    fn new() -> Self {
        Default::default()
    }
}

impl MessageSender for DummySender {
    fn send(&mut self, mbuf: &mut Message) -> Result<u32, connection::Error> {
        self.msgs.push(decode_message(mbuf).unwrap());
        Err(connection::Error::Disconnected)
    }

    fn call_sync(&mut self, _mbuf: &mut Message) -> Result<Option<Vec<Value>>, connection::Error> {
        Err(connection::Error::Disconnected)
    }
}

struct Nothing;

impl MethodHandler for Nothing {
    fn call<S: MessageSender>(&mut self, _s: MessageSenderWrapper<S>, _m: MethodCall) -> Result<MethodRetVal, DispatchError> {
        Ok(MethodRetVal::NoReply)
    }
}

impl SignalHandler for Nothing {
    fn call<S: MessageSender>(&mut self, _s: MessageSenderWrapper<S>, _g: Signal) -> Result<(), DispatchError> {
        Ok(())
    }
}

struct MethodFlag<'a> {
    called: &'a Cell<bool>,
}

impl<'a> MethodHandler for MethodFlag<'a> {
    fn call<S: MessageSender>(&mut self, _sender: MessageSenderWrapper<S>, mth: MethodCall) -> Result<MethodRetVal, DispatchError> {
        self.called.set(true);
        assert_eq!(mth.path, "path");
        assert_eq!(mth.interface, "interface");
        assert_eq!(mth.member, "method");
        Ok(MethodRetVal::Reply(vec![Value::BasicValue(BasicValue::Int32(10))]))
    }
}

struct SignalFlag<'a> {
    called: &'a Cell<bool>,
}

impl<'a> SignalHandler for SignalFlag<'a> {
    fn call<S: MessageSender>(&mut self, _sender: MessageSenderWrapper<S>, sig: Signal) -> Result<(), DispatchError> {
        self.called.set(true);
        assert_eq!(sig.path, "path");
        assert_eq!(sig.interface, "interface");
        assert_eq!(sig.member, "method");
        Ok(())
    }
}

#[test]
fn test_decode_message() {
    /* Method call */
    let mut msg = message::create_method_call("dest", "path", "interface", "method");
    if let MessageType::Method(mth) = decode_message(&mut msg).unwrap() {
        assert_eq!(mth.path, "path");
        assert_eq!(mth.interface, "interface");
        assert_eq!(mth.member, "method");
    }

    /* Signal */
    let mut msg = message::create_signal("path", "interface", "method");
    if let MessageType::Signal(sig) = decode_message(&mut msg).unwrap() {
        assert_eq!(sig.path, "path");
    }
}

#[test]
fn test_chained() {
    let msg = message::create_signal("path", "interface", "method");
    let mut sender = DummySender::new();
    let mut mth_dis: MessageDispatcher<Nothing, Nothing> = MessageDispatcher::new();
    let first = mth_dis.handle_message(&mut sender, msg);
    first.chain(&mut sender, &mut mth_dis).unwrap_err();
}

#[test]
fn test_dispatcher_method() {
    let mth_msg = message::create_method_call("dest", "path", "interface", "method");
    let sig_msg = message::create_signal("path", "interface", "method");
    let mth_called = Cell::new(false);
    let sig_called = Cell::new(false);

    let mut mth_dis: MessageDispatcher<MethodFlag, Nothing> = MessageDispatcher::new();
    let mut sig_dis: MessageDispatcher<Nothing, SignalFlag> = MessageDispatcher::new();

    let mut sender = DummySender::new();

    mth_dis.add_method("path".into(), "interface".into(), "method".into(), MethodFlag { called: &mth_called });
    sig_dis.add_signal("path".into(), "interface".into(), "method".into(), SignalFlag { called: &sig_called });

    /* Handle one method call */
    assert_eq!(mth_called.get(), false);
    let err = mth_dis.handle_message(&mut sender, mth_msg).unwrap().unwrap_err();
    /* Dummy sender should return a connection error */
    assert_eq!(err, "Connection send error Disconnected");
    assert_eq!(mth_called.get(), true);
    /* Pop the connection error reply. */
    sender.msgs.pop().unwrap();
    /* Sender should have sent a MethodReturn message */
    match sender.msgs.pop().unwrap() {
        MessageType::MethodReturn(r) => {
            assert_eq!(r.body.unwrap().get(0).unwrap(), &Value::BasicValue(BasicValue::Int32(10)))
        }
        _ => panic!("MethodReturn to be generated"),
    }

    /* Test chaining */
    assert_eq!(sig_called.get(), false);
    let msg = mth_dis.handle_message(&mut sender, sig_msg).unwrap_err();
    assert_eq!(sig_called.get(), false);

    sig_dis.handle_message(&mut sender, msg).unwrap().unwrap();
    assert_eq!(sig_called.get(), true);
}

#[test]
fn test_no_match_handler() {
    let mut sender = DummySender::new();
    let sig_msg = message::create_signal("path", "interface", "method");
    let mut dis1: MessageDispatcher<Nothing, Nothing> = MessageDispatcher::new();
    let mut dis2: MessageDispatcher<Nothing, Nothing> = MessageDispatcher::new();

    let err = dis1
        .handle_message(&mut sender, sig_msg)
        .chain(&mut sender, &mut dis2)
        .chain(&mut sender, &mut NoMatchHandler)
        .unwrap()
        .unwrap_err();
    /* Dummy sender should return a connection error */
    assert_eq!(err, "Connection send error Disconnected");

    /* Sender should have sent an UnknownObject message */
    match sender.msgs.pop().unwrap() {
        MessageType::Error(e) => assert_eq!(e.error_name, "org.freedesktop.DBus.Error.UnknownObject"),
        _ => panic!("Expected error to be generated"),
    }
    assert_eq!(sender.msgs.len(), 0);
}

#[test]
fn chained_method_call_gets_one_unknown_object() {
    let mut sender = DummySender::new();
    let msg = message::create_method_call("dest", "/obj", "org.example", "Nope");
    let mut a: MessageDispatcher<Nothing, Nothing> = MessageDispatcher::new();
    let mut b: MessageDispatcher<Nothing, Nothing> = MessageDispatcher::new();
    let r = a.handle_message(&mut sender, msg).chain(&mut sender, &mut b).chain(&mut sender, &mut NoMatchHandler);
    assert!(r.is_ok());
    assert_eq!(sender.msgs.len(), 1);
    match sender.msgs.pop().unwrap() {
        MessageType::Error(e) => assert_eq!(e.error_name, "org.freedesktop.DBus.Error.UnknownObject"),
        _ => panic!("Expected error to be generated"),
    }
}

#[test]
fn reply_is_built_from_handler_values() {
    let reply = method_reply(77, true, MethodRetVal::Reply(vec![Value::BasicValue(BasicValue::Int32(10))])).unwrap();
    assert_eq!(reply.message_type.0, message::MESSAGE_TYPE_METHOD_RETURN);
    assert_eq!(reply.decode_header_u32(message::HEADER_FIELD_REPLY_SERIAL), Some(77));
    assert_eq!(reply.get_body().unwrap().unwrap(), vec![Value::BasicValue(BasicValue::Int32(10))]);
    let empty = method_reply(5, true, MethodRetVal::EmptyReply).unwrap();
    assert!(empty.get_body().unwrap().is_none());
    assert!(method_reply(5, true, MethodRetVal::NoReply).is_none());
    assert!(method_reply(5, false, MethodRetVal::EmptyReply).is_none());
}

#[test]
fn undecodable_message_gets_inconsistent_message() {
    let mut sender = DummySender::new();
    let mut msg = message::create_method_call("dest", "/obj", "org.example", "M");
    msg.headers.remove(1);
    let mut d: MessageDispatcher<Nothing, Nothing> = MessageDispatcher::new();
    let r = d.handle_message(&mut sender, msg).unwrap().unwrap_err();
    assert_eq!(r, "Connection send error Disconnected");
    match sender.msgs.pop().unwrap() {
        MessageType::Error(e) => {
            assert_eq!(e.error_name, "org.freedesktop.DBus.Error.InconsistentMessage");
            assert_eq!(e.body.unwrap(), vec![Value::BasicValue(BasicValue::String("BadPath".to_string()))]);
        }
        _ => panic!("Expected error to be generated"),
    }
}

#[test]
fn address_error_text() {
    let e = connection::Error::AddressError((AddrError::UnknownOption, "foo".to_string()));
    assert_eq!(connection_err_string(e), "Connection send error AddressError((UnknownOption, \"foo\"))");
    let e = connection::Error::AddressError((AddrError::MissingOption, "x".to_string()));
    let expected = format!("Connection send error AddressError({:?})", (AddrError::MissingOption, "x".to_string()));
    assert_eq!(connection_err_string(e), expected);
}

#[test]
fn signal_with_bad_body_is_bad_body() {
    let mut msg = message::create_signal("/p", "i.f", "m").add_arg(&1u32);
    msg.body.truncate(2);
    assert_eq!(decode_message(&msg).unwrap_err(), MessageDecodeError::BadBody);
}

#[test]
fn logged_dispatch_of_unmatched_message_sends_nothing() {
    let mut sender = DummySender::new();
    let msg = message::create_signal("/x", "i.f", "m");
    let mut d: MessageDispatcher<Nothing, Nothing> = MessageDispatcher::new();
    let (r, _sent, _results, _answer) = d.dispatch_logged(&mut sender, msg);
    assert!(r.is_err());
    assert_eq!(sender.msgs.len(), 0);
}

#[test]
fn no_match_handler_sends_one_unknown_object() {
    let mut sender = DummySender::new();
    let mut msg = message::create_method_call("d", "/o", "i", "m");
    msg.serial = 42;
    let (r, _sent, _result) = NoMatchHandler.handle_logged(&mut sender, msg);
    assert_eq!(r.unwrap(), Err("Connection send error Disconnected".to_string()));
    assert_eq!(sender.msgs.len(), 1);
    match sender.msgs.pop().unwrap() {
        MessageType::Error(e) => {
            assert_eq!(e.error_name, "org.freedesktop.DBus.Error.UnknownObject");
            assert_eq!(e.reply_serial, 42);
        }
        _ => panic!("Expected error to be generated"),
    }
}
