//! Received messages unpacked by kind, with their required header fields.
use vstd::prelude::*;
use crate::message::{
    body_decodes, body_vals, header_text, header_u32, Message, HEADER_FIELD_DESTINATION,
    HEADER_FIELD_ERROR_NAME, HEADER_FIELD_INTERFACE, HEADER_FIELD_MEMBER, HEADER_FIELD_PATH,
    HEADER_FIELD_REPLY_SERIAL, HEADER_FIELD_SENDER, HEADER_FIELD_SIGNATURE,
    MESSAGE_TYPE_ERROR, MESSAGE_TYPE_METHOD_CALL, MESSAGE_TYPE_METHOD_RETURN, MESSAGE_TYPE_SIGNAL,
};
use crate::value::{views, Val, Value};

verus! {

/// Why a received message could not be unpacked.
#[derive(Debug, Clone, Copy, PartialEq, Eq, Structural)]
pub enum MessageDecodeError {
    BadMessageType,
    BadPath,
    BadInterface,
    BadMember,
    BadErrorName,
    BadReplySerial,
    BadBody,
}

/// Header fields that any message may carry.
#[derive(Debug)]
pub struct OptionalHeaderFields {
    pub destination: Option<String>,
    pub sender: Option<String>,
    pub signature: Option<String>,
}

pub open spec fn opt_text(o: Option<String>) -> Option<Seq<char>> {
    match o {
        Some(s) => Some(s@),
        None => None,
    }
}

pub open spec fn body_view(b: Option<Vec<Value>>) -> Option<Seq<Val>> {
    match b {
        Some(v) => Some(views(v@, v@.len())),
        None => None,
    }
}

impl OptionalHeaderFields {
    pub open spec fn matches_msg(&self, m: Message) -> bool {
        &&& opt_text(self.destination) == header_text(m, HEADER_FIELD_DESTINATION)
        &&& opt_text(self.sender) == header_text(m, HEADER_FIELD_SENDER)
        &&& opt_text(self.signature) == header_text(m, HEADER_FIELD_SIGNATURE)
    }

    pub fn new(msg: &Message) -> (r: OptionalHeaderFields)
        ensures
            r.matches_msg(*msg),
    {
        OptionalHeaderFields {
            destination: msg.decode_header_string(HEADER_FIELD_DESTINATION),
            sender: msg.decode_header_string(HEADER_FIELD_SENDER),
            signature: msg.decode_header_string(HEADER_FIELD_SIGNATURE),
        }
    }
}

/// The interface of a method call: the header's text, or empty.
pub open spec fn interface_or_empty(m: Message) -> Seq<char> {
    match header_text(m, HEADER_FIELD_INTERFACE) {
        Some(t) => t,
        None => Seq::empty(),
    }
}

/// `c` unpacks the method call `m`.
pub open spec fn is_method_call_of(m: Message, c: MethodCall) -> bool {
    &&& Some(c.path@) == header_text(m, HEADER_FIELD_PATH)
    &&& Some(c.member@) == header_text(m, HEADER_FIELD_MEMBER)
    &&& c.interface@ == interface_or_empty(m)
    &&& c.opt.matches_msg(m)
    &&& body_view(c.body) == body_vals(m)
}

/// Why the method call `m` does not unpack, when it does not.
pub open spec fn method_call_error(m: Message) -> MessageDecodeError {
    if header_text(m, HEADER_FIELD_PATH) is None {
        MessageDecodeError::BadPath
    } else if header_text(m, HEADER_FIELD_MEMBER) is None {
        MessageDecodeError::BadMember
    } else {
        MessageDecodeError::BadBody
    }
}

/// `r` unpacks the method return `m`.
pub open spec fn is_method_return_of(m: Message, r: MethodReturn) -> bool {
    &&& Some(r.reply_serial) == header_u32(m, HEADER_FIELD_REPLY_SERIAL)
    &&& r.opt.matches_msg(m)
    &&& body_view(r.body) == body_vals(m)
}

pub open spec fn method_return_error(m: Message) -> MessageDecodeError {
    if header_u32(m, HEADER_FIELD_REPLY_SERIAL) is None {
        MessageDecodeError::BadReplySerial
    } else {
        MessageDecodeError::BadBody
    }
}

/// `g` unpacks the signal `m`.
pub open spec fn is_signal_of(m: Message, g: Signal) -> bool {
    &&& Some(g.path@) == header_text(m, HEADER_FIELD_PATH)
    &&& Some(g.interface@) == header_text(m, HEADER_FIELD_INTERFACE)
    &&& Some(g.member@) == header_text(m, HEADER_FIELD_MEMBER)
    &&& g.opt.matches_msg(m)
    &&& body_view(g.body) == body_vals(m)
}

pub open spec fn signal_error(m: Message) -> MessageDecodeError {
    if header_text(m, HEADER_FIELD_PATH) is None {
        MessageDecodeError::BadPath
    } else if header_text(m, HEADER_FIELD_INTERFACE) is None {
        MessageDecodeError::BadInterface
    } else if header_text(m, HEADER_FIELD_MEMBER) is None {
        MessageDecodeError::BadMember
    } else {
        MessageDecodeError::BadBody
    }
}

/// `e` unpacks the error `m`.
pub open spec fn is_error_of(m: Message, e: Error) -> bool {
    &&& Some(e.error_name@) == header_text(m, HEADER_FIELD_ERROR_NAME)
    &&& Some(e.reply_serial) == header_u32(m, HEADER_FIELD_REPLY_SERIAL)
    &&& e.opt.matches_msg(m)
    &&& body_view(e.body) == body_vals(m)
}

pub open spec fn error_error(m: Message) -> MessageDecodeError {
    if header_text(m, HEADER_FIELD_ERROR_NAME) is None {
        MessageDecodeError::BadErrorName
    } else if header_u32(m, HEADER_FIELD_REPLY_SERIAL) is None {
        MessageDecodeError::BadReplySerial
    } else {
        MessageDecodeError::BadBody
    }
}

/// The body of a message, or `err` where it does not decode.
fn body_or(msg: &Message, err: MessageDecodeError) -> (r: Result<Option<Vec<Value>>, MessageDecodeError>)
    ensures
        body_decodes(*msg) ==> (r matches Ok(b) && body_view(b) == body_vals(*msg)),
        !body_decodes(*msg) ==> (r matches Err(e) && e == err),
{
    match msg.get_body() {
        Ok(b) => Ok(b),
        Err(_) => Err(err),
    }
}

/// An unpacked method call.
#[derive(Debug)]
pub struct MethodCall {
    pub path: String,
    pub interface: String,
    pub member: String,
    pub opt: OptionalHeaderFields,
    pub body: Option<Vec<Value>>,
}

impl MethodCall {
    /// Requires a path and a member; the interface defaults to empty.
    pub fn new(msg: &Message) -> (r: Result<MethodCall, MessageDecodeError>)
        ensures
            header_text(*msg, HEADER_FIELD_PATH) is None ==> (r matches Err(e) && e == MessageDecodeError::BadPath),
            header_text(*msg, HEADER_FIELD_PATH) is Some && header_text(*msg, HEADER_FIELD_MEMBER) is None
                ==> (r matches Err(e) && e == MessageDecodeError::BadMember),
            header_text(*msg, HEADER_FIELD_PATH) is Some && header_text(*msg, HEADER_FIELD_MEMBER) is Some
                && !body_decodes(*msg) ==> (r matches Err(e) && e == MessageDecodeError::BadBody),
            r matches Ok(c) ==> Some(c.path@) == header_text(*msg, HEADER_FIELD_PATH) && Some(c.member@)
                == header_text(*msg, HEADER_FIELD_MEMBER) && c.interface@ == match header_text(
                *msg,
                HEADER_FIELD_INTERFACE,
            ) {
                Some(t) => t,
                None => Seq::empty(),
            } && c.opt.matches_msg(*msg) && body_view(c.body) == body_vals(*msg),
            (r is Ok) == (header_text(*msg, HEADER_FIELD_PATH) is Some && header_text(*msg, HEADER_FIELD_MEMBER) is Some
                && body_decodes(*msg)),
            r matches Ok(c) ==> is_method_call_of(*msg, c),
            r matches Err(e) ==> e == method_call_error(*msg),
    {
        let path = match msg.decode_header_string(HEADER_FIELD_PATH) {
            Some(p) => p,
            None => return Err(MessageDecodeError::BadPath),
        };
        let interface = match msg.decode_header_string(HEADER_FIELD_INTERFACE) {
            Some(i) => i,
            None => String::new(),
        };
        let member = match msg.decode_header_string(HEADER_FIELD_MEMBER) {
            Some(m) => m,
            None => return Err(MessageDecodeError::BadMember),
        };
        let opt = OptionalHeaderFields::new(msg);
        let body = match body_or(msg, MessageDecodeError::BadBody) {
            Ok(b) => b,
            Err(e) => return Err(e),
        };
        Ok(MethodCall { path, interface, member, opt, body })
    }
}

/// An unpacked method return.
#[derive(Debug)]
pub struct MethodReturn {
    pub reply_serial: u32,
    pub opt: OptionalHeaderFields,
    pub body: Option<Vec<Value>>,
}

impl MethodReturn {
    /// Requires a reply serial.
    pub fn new(msg: &Message) -> (r: Result<MethodReturn, MessageDecodeError>)
        ensures
            header_u32(*msg, HEADER_FIELD_REPLY_SERIAL) is None ==> (r matches Err(e) && e
                == MessageDecodeError::BadReplySerial),
            header_u32(*msg, HEADER_FIELD_REPLY_SERIAL) is Some && !body_decodes(*msg) ==> (r matches Err(e)
                && e == MessageDecodeError::BadBody),
            r matches Ok(m) ==> Some(m.reply_serial) == header_u32(*msg, HEADER_FIELD_REPLY_SERIAL)
                && m.opt.matches_msg(*msg) && body_view(m.body) == body_vals(*msg),
            (r is Ok) == (header_u32(*msg, HEADER_FIELD_REPLY_SERIAL) is Some && body_decodes(*msg)),
            r matches Ok(c) ==> is_method_return_of(*msg, c),
            r matches Err(e) ==> e == method_return_error(*msg),
    {
        let reply_serial = match msg.decode_header_u32(HEADER_FIELD_REPLY_SERIAL) {
            Some(s) => s,
            None => return Err(MessageDecodeError::BadReplySerial),
        };
        let opt = OptionalHeaderFields::new(msg);
        let body = match body_or(msg, MessageDecodeError::BadBody) {
            Ok(b) => b,
            Err(e) => return Err(e),
        };
        Ok(MethodReturn { reply_serial, opt, body })
    }
}

/// An unpacked signal.
#[derive(Debug)]
pub struct Signal {
    pub path: String,
    pub interface: String,
    pub member: String,
    pub opt: OptionalHeaderFields,
    pub body: Option<Vec<Value>>,
}

impl Signal {
    /// Requires a path, an interface and a member.
    pub fn new(msg: &Message) -> (r: Result<Signal, MessageDecodeError>)
        ensures
            header_text(*msg, HEADER_FIELD_PATH) is None ==> (r matches Err(e) && e == MessageDecodeError::BadPath),
            header_text(*msg, HEADER_FIELD_PATH) is Some && header_text(*msg, HEADER_FIELD_INTERFACE) is None
                ==> (r matches Err(e) && e == MessageDecodeError::BadInterface),
            header_text(*msg, HEADER_FIELD_PATH) is Some && header_text(*msg, HEADER_FIELD_INTERFACE) is Some
                && header_text(*msg, HEADER_FIELD_MEMBER) is None ==> (r matches Err(e) && e
                == MessageDecodeError::BadMember),
            r matches Ok(c) ==> Some(c.path@) == header_text(*msg, HEADER_FIELD_PATH) && Some(
                c.interface@,
            ) == header_text(*msg, HEADER_FIELD_INTERFACE) && Some(c.member@) == header_text(
                *msg,
                HEADER_FIELD_MEMBER,
            ) && c.opt.matches_msg(*msg) && body_view(c.body) == body_vals(*msg),
            (r is Ok) == (header_text(*msg, HEADER_FIELD_PATH) is Some && header_text(*msg, HEADER_FIELD_INTERFACE) is Some
                && header_text(*msg, HEADER_FIELD_MEMBER) is Some && body_decodes(*msg)),
            r matches Ok(c) ==> is_signal_of(*msg, c),
            r matches Err(e) ==> e == signal_error(*msg),
    {
        let path = match msg.decode_header_string(HEADER_FIELD_PATH) {
            Some(p) => p,
            None => return Err(MessageDecodeError::BadPath),
        };
        let interface = match msg.decode_header_string(HEADER_FIELD_INTERFACE) {
            Some(i) => i,
            None => return Err(MessageDecodeError::BadInterface),
        };
        let member = match msg.decode_header_string(HEADER_FIELD_MEMBER) {
            Some(m) => m,
            None => return Err(MessageDecodeError::BadMember),
        };
        let opt = OptionalHeaderFields::new(msg);
        let body = match body_or(msg, MessageDecodeError::BadBody) {
            Ok(b) => b,
            Err(e) => return Err(e),
        };
        Ok(Signal { path, interface, member, opt, body })
    }
}

/// An unpacked error.
#[derive(Debug)]
pub struct Error {
    pub error_name: String,
    pub reply_serial: u32,
    pub opt: OptionalHeaderFields,
    pub body: Option<Vec<Value>>,
}

impl Error {
    /// Requires an error name and a reply serial.
    pub fn new(msg: &Message) -> (r: Result<Error, MessageDecodeError>)
        ensures
            header_text(*msg, HEADER_FIELD_ERROR_NAME) is None ==> (r matches Err(e) && e
                == MessageDecodeError::BadErrorName),
            header_text(*msg, HEADER_FIELD_ERROR_NAME) is Some && header_u32(*msg, HEADER_FIELD_REPLY_SERIAL) is None
                ==> (r matches Err(e) && e == MessageDecodeError::BadReplySerial),
            r matches Ok(c) ==> Some(c.error_name@) == header_text(*msg, HEADER_FIELD_ERROR_NAME)
                && Some(c.reply_serial) == header_u32(*msg, HEADER_FIELD_REPLY_SERIAL) && c.opt.matches_msg(*msg)
                && body_view(c.body) == body_vals(*msg),
            (r is Ok) == (header_text(*msg, HEADER_FIELD_ERROR_NAME) is Some && header_u32(*msg, HEADER_FIELD_REPLY_SERIAL) is Some
                && body_decodes(*msg)),
            r matches Ok(c) ==> is_error_of(*msg, c),
            r matches Err(e) ==> e == error_error(*msg),
    {
        let error_name = match msg.decode_header_string(HEADER_FIELD_ERROR_NAME) {
            Some(n) => n,
            None => return Err(MessageDecodeError::BadErrorName),
        };
        let reply_serial = match msg.decode_header_u32(HEADER_FIELD_REPLY_SERIAL) {
            Some(s) => s,
            None => return Err(MessageDecodeError::BadReplySerial),
        };
        let opt = OptionalHeaderFields::new(msg);
        let body = match body_or(msg, MessageDecodeError::BadBody) {
            Ok(b) => b,
            Err(e) => return Err(e),
        };
        Ok(Error { error_name, reply_serial, opt, body })
    }
}

/// A received message by kind.
#[derive(Debug)]
pub enum MessageType {
    Method(MethodCall),
    MethodReturn(MethodReturn),
    Signal(Signal),
    Error(Error),
}

/// Whether a message unpacks: a known kind with the header fields that kind
/// requires, and a body that decodes.
pub open spec fn decodes(m: Message) -> bool {
    let t = m.message_type.0;
    if t == MESSAGE_TYPE_METHOD_CALL {
        header_text(m, HEADER_FIELD_PATH) is Some && header_text(m, HEADER_FIELD_MEMBER) is Some
            && body_decodes(m)
    } else if t == MESSAGE_TYPE_METHOD_RETURN {
        header_u32(m, HEADER_FIELD_REPLY_SERIAL) is Some && body_decodes(m)
    } else if t == MESSAGE_TYPE_SIGNAL {
        header_text(m, HEADER_FIELD_PATH) is Some && header_text(m, HEADER_FIELD_INTERFACE) is Some
            && header_text(m, HEADER_FIELD_MEMBER) is Some && body_decodes(m)
    } else if t == MESSAGE_TYPE_ERROR {
        header_text(m, HEADER_FIELD_ERROR_NAME) is Some && header_u32(m, HEADER_FIELD_REPLY_SERIAL) is Some
            && body_decodes(m)
    } else {
        false
    }
}

/// Unpacks a message by its kind.
pub fn decode_message(msg: &Message) -> (r: Result<MessageType, MessageDecodeError>)
    ensures
        r is Ok <==> decodes(*msg),
        msg.message_type.0 == MESSAGE_TYPE_METHOD_CALL ==> match r {
            Ok(MessageType::Method(c)) => is_method_call_of(*msg, c),
            Ok(_) => false,
            Err(e) => e == method_call_error(*msg),
        },
        msg.message_type.0 == MESSAGE_TYPE_METHOD_RETURN ==> match r {
            Ok(MessageType::MethodReturn(c)) => is_method_return_of(*msg, c),
            Ok(_) => false,
            Err(e) => e == method_return_error(*msg),
        },
        msg.message_type.0 == MESSAGE_TYPE_SIGNAL ==> match r {
            Ok(MessageType::Signal(c)) => is_signal_of(*msg, c),
            Ok(_) => false,
            Err(e) => e == signal_error(*msg),
        },
        msg.message_type.0 == MESSAGE_TYPE_ERROR ==> match r {
            Ok(MessageType::Error(c)) => is_error_of(*msg, c),
            Ok(_) => false,
            Err(e) => e == error_error(*msg),
        },
        msg.message_type.0 == MESSAGE_TYPE_METHOD_CALL ==> (r is Ok <==> header_text(*msg, HEADER_FIELD_PATH) is Some
            && header_text(*msg, HEADER_FIELD_MEMBER) is Some && body_decodes(*msg)) && (r is Ok ==> r->Ok_0 is Method),
        msg.message_type.0 == MESSAGE_TYPE_METHOD_RETURN ==> (r is Ok <==> header_u32(*msg, HEADER_FIELD_REPLY_SERIAL) is Some
            && body_decodes(*msg)) && (r is Ok ==> r->Ok_0 is MethodReturn),
        msg.message_type.0 == MESSAGE_TYPE_SIGNAL ==> (r is Ok <==> header_text(*msg, HEADER_FIELD_PATH) is Some
            && header_text(*msg, HEADER_FIELD_INTERFACE) is Some && header_text(*msg, HEADER_FIELD_MEMBER) is Some
            && body_decodes(*msg)) && (r is Ok ==> r->Ok_0 is Signal),
        msg.message_type.0 == MESSAGE_TYPE_ERROR ==> (r is Ok <==> header_text(*msg, HEADER_FIELD_ERROR_NAME) is Some
            && header_u32(*msg, HEADER_FIELD_REPLY_SERIAL) is Some && body_decodes(*msg)) && (r is Ok ==> r->Ok_0 is Error),
        !(1 <= msg.message_type.0 <= 4) ==> (r matches Err(e) && e == MessageDecodeError::BadMessageType),
{
    let t = msg.message_type.0;
    if t == MESSAGE_TYPE_METHOD_CALL {
        match MethodCall::new(msg) {
            Ok(m) => Ok(MessageType::Method(m)),
            Err(e) => Err(e),
        }
    } else if t == MESSAGE_TYPE_METHOD_RETURN {
        match MethodReturn::new(msg) {
            Ok(m) => Ok(MessageType::MethodReturn(m)),
            Err(e) => Err(e),
        }
    } else if t == MESSAGE_TYPE_SIGNAL {
        match Signal::new(msg) {
            Ok(m) => Ok(MessageType::Signal(m)),
            Err(e) => Err(e),
        }
    } else if t == MESSAGE_TYPE_ERROR {
        match Error::new(msg) {
            Ok(m) => Ok(MessageType::Error(m)),
            Err(e) => Err(e),
        }
    } else {
        Err(MessageDecodeError::BadMessageType)
    }
}

} // verus!
