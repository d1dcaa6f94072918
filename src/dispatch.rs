//! Routes received messages to registered handlers.
//!
//! Handlers are keyed by `(path, interface, member)`. A message that no
//! handler takes is handed back, so that handlers can be chained; a
//! `NoMatchHandler` at the end of a chain answers with `UnknownObject`.
use vstd::prelude::*;
use vstd::string::*;
use crate::connection;
use crate::demarshal::DemarshalError;
use crate::marshal::{enc, sig_of};
use crate::message::{
    create_error, create_method_return, header_val, headers_view, is_fresh, lemma_header_field,
    lemma_headers_view, Message,
    HEADER_FIELD_ERROR_NAME, HEADER_FIELD_REPLY_SERIAL, HEADER_FIELD_SIGNATURE,
    MESSAGE_TYPE_METHOD_RETURN, FLAGS_NO_REPLY_EXPECTED,
};
use crate::value::{views, lemma_views, Val, Value};
use self::message_types::{
    decode_message, decodes, interface_or_empty, MessageDecodeError, MessageType, MethodCall, Signal,
};

pub mod message_types;

verus! {

/// Why dispatching failed.
#[derive(Debug)]
pub enum DispatchError {
    MessageDecodeError(MessageDecodeError),
    InvalidArguments,
    UnhandledMessage,
    OtherError(String),
}

/// Something messages can be sent through: a connection, or a stand-in.
pub trait MessageSender {
    fn send(&mut self, mbuf: &mut Message) -> Result<u32, connection::Error>;

    fn call_sync(&mut self, mbuf: &mut Message) -> Result<Option<Vec<Value>>, connection::Error>;
}

/// What a method handler answers.
#[derive(Debug, PartialEq)]
pub enum MethodRetVal {
    NoReply,
    EmptyReply,
    Reply(Vec<Value>),
}

/// Handled (`Ok(Ok(()))`), failed with a reason (`Ok(Err(_))`), or not
/// taken: the message comes back for the next handler (`Err(_)`).
pub type HandlerResult = Result<Result<(), String>, Message>;

/// The name of a decode error, as it is reported.
pub open spec fn decode_error_text(e: MessageDecodeError) -> Seq<char> {
    match e {
        MessageDecodeError::BadMessageType => "BadMessageType"@,
        MessageDecodeError::BadPath => "BadPath"@,
        MessageDecodeError::BadInterface => "BadInterface"@,
        MessageDecodeError::BadMember => "BadMember"@,
        MessageDecodeError::BadErrorName => "BadErrorName"@,
        MessageDecodeError::BadReplySerial => "BadReplySerial"@,
        MessageDecodeError::BadBody => "BadBody"@,
    }
}

/// The name of a decode error.
pub fn decode_error_name(e: MessageDecodeError) -> (r: String)
    ensures
        r@ == decode_error_text(e),
{
    match e {
        MessageDecodeError::BadMessageType => "BadMessageType".to_owned(),
        MessageDecodeError::BadPath => "BadPath".to_owned(),
        MessageDecodeError::BadInterface => "BadInterface".to_owned(),
        MessageDecodeError::BadMember => "BadMember".to_owned(),
        MessageDecodeError::BadErrorName => "BadErrorName".to_owned(),
        MessageDecodeError::BadReplySerial => "BadReplySerial".to_owned(),
        MessageDecodeError::BadBody => "BadBody".to_owned(),
    }
}

/// The name of a demarshal error.
pub open spec fn demarshal_error_text(e: DemarshalError) -> Seq<char> {
    match e {
        DemarshalError::MessageTooShort => "MessageTooShort"@,
        DemarshalError::CorruptedMessage => "CorruptedMessage"@,
        DemarshalError::BadUTF8 => "BadUTF8"@,
        DemarshalError::BadSignature => "BadSignature"@,
        DemarshalError::ElementTooBig => "ElementTooBig"@,
        DemarshalError::MismatchedParens => "MismatchedParens"@,
    }
}

fn demarshal_error_name(e: DemarshalError) -> (r: String)
    ensures
        r@ == demarshal_error_text(e),
{
    match e {
        DemarshalError::MessageTooShort => "MessageTooShort".to_owned(),
        DemarshalError::CorruptedMessage => "CorruptedMessage".to_owned(),
        DemarshalError::BadUTF8 => "BadUTF8".to_owned(),
        DemarshalError::BadSignature => "BadSignature".to_owned(),
        DemarshalError::ElementTooBig => "ElementTooBig".to_owned(),
        DemarshalError::MismatchedParens => "MismatchedParens".to_owned(),
    }
}

/// Relies on `Debug` for `std::io::Error`.
#[verifier::external_body]
fn io_error_text(e: &std::io::Error) -> String {
    format!("{:?}", e)
}

/// The name of an address error kind, as `Debug` writes it.
pub open spec fn address_error_kind_text(e: crate::address::Error) -> Seq<char> {
    match e {
        crate::address::Error::UnescapeError(u) => "UnescapeError("@ + match u {
            crate::address::UnescapeError::ShortEscapeSequence => "ShortEscapeSequence"@,
            crate::address::UnescapeError::EscapeNotUtf8 => "EscapeNotUtf8"@,
            crate::address::UnescapeError::HexConversionError => "HexConversionError"@,
        } + ")"@,
        crate::address::Error::BadTransportSeparator => "BadTransportSeparator"@,
        crate::address::Error::MalformedKeyValue => "MalformedKeyValue"@,
        crate::address::Error::UnknownTransport => "UnknownTransport"@,
        crate::address::Error::UnknownOption => "UnknownOption"@,
        crate::address::Error::MissingOption => "MissingOption"@,
        crate::address::Error::ConflictingOptions => "ConflictingOptions"@,
    }
}

fn address_error_kind_name(e: crate::address::Error) -> (r: String)
    ensures
        r@ == address_error_kind_text(e),
{
    match e {
        crate::address::Error::UnescapeError(u) => {
            let n = match u {
                crate::address::UnescapeError::ShortEscapeSequence => "ShortEscapeSequence",
                crate::address::UnescapeError::EscapeNotUtf8 => "EscapeNotUtf8",
                crate::address::UnescapeError::HexConversionError => "HexConversionError",
            };
            "UnescapeError(".to_owned().concat(n).concat(")")
        },
        crate::address::Error::BadTransportSeparator => "BadTransportSeparator".to_owned(),
        crate::address::Error::MalformedKeyValue => "MalformedKeyValue".to_owned(),
        crate::address::Error::UnknownTransport => "UnknownTransport".to_owned(),
        crate::address::Error::UnknownOption => "UnknownOption".to_owned(),
        crate::address::Error::MissingOption => "MissingOption".to_owned(),
        crate::address::Error::ConflictingOptions => "ConflictingOptions".to_owned(),
    }
}

/// The text of a connection error, for the variants without outside data.
/// An address error is written as `Debug` writes it, except that its detail
/// text is quoted without escaping.
pub open spec fn connection_error_text(e: connection::Error) -> Option<Seq<char>> {
    match e {
        connection::Error::Disconnected => Some("Disconnected"@),
        connection::Error::BadData => Some("BadData"@),
        connection::Error::AuthFailed => Some("AuthFailed"@),
        connection::Error::NoEnvironment => Some("NoEnvironment"@),
        connection::Error::DemarshalError(d) => Some(
            "DemarshalError("@ + demarshal_error_text(d) + ")"@,
        ),
        connection::Error::AddressError(a) => Some(
            "AddressError(("@ + address_error_kind_text(a.0) + ", \""@ + a.1@ + "\"))"@,
        ),
        _ => None,
    }
}

/// Describes a failed send: `Connection send error <error>`.
pub fn connection_err_string(e: connection::Error) -> (r: String)
    ensures
        connection_error_text(e) matches Some(t) ==> r@ == "Connection send error "@ + t,
{
    let t = match &e {
        connection::Error::Disconnected => "Disconnected".to_owned(),
        connection::Error::IOError(x) => "IOError(".to_owned().concat(io_error_text(x).as_str()).concat(")"),
        connection::Error::DemarshalError(d) => "DemarshalError(".to_owned().concat(
            demarshal_error_name(*d).as_str(),
        ).concat(")"),
        connection::Error::AddressError(a) => "AddressError((".to_owned().concat(
            address_error_kind_name(a.0).as_str(),
        ).concat(", \"").concat(a.1.as_str()).concat("\"))"),
        connection::Error::BadData => "BadData".to_owned(),
        connection::Error::AuthFailed => "AuthFailed".to_owned(),
        connection::Error::NoEnvironment => "NoEnvironment".to_owned(),
    };
    "Connection send error ".to_owned().concat(t.as_str())
}

/// The key a handler is registered under.
#[derive(Debug)]
pub struct DBusMatch {
    pub path: String,
    pub interface: String,
    pub member: String,
}

impl DBusMatch {
    pub open spec fn view(&self) -> (Seq<char>, Seq<char>, Seq<char>) {
        (self.path@, self.interface@, self.member@)
    }

    pub fn new(path: String, interface: String, member: String) -> (r: DBusMatch)
        ensures
            r.view() == (path@, interface@, member@),
    {
        DBusMatch { path, interface, member }
    }
}

/// The keys of registered handlers; a handler is named by its index.
pub struct HandlerTable {
    keys: Vec<DBusMatch>,
}

impl HandlerTable {
    pub closed spec fn keys_view(&self) -> Seq<(Seq<char>, Seq<char>, Seq<char>)> {
        Seq::new(self.keys@.len(), |i: int| self.keys@[i].view())
    }

    /// No key is registered twice.
    pub open spec fn wf(&self) -> bool {
        forall|i: int, j: int|
            0 <= i < j < self.keys_view().len() ==> self.keys_view()[i] != self.keys_view()[j]
    }

    pub fn new() -> (r: HandlerTable)
        ensures
            r.wf(),
            r.keys_view().len() == 0,
    {
        let r = HandlerTable { keys: Vec::new() };
        assert(r.keys_view() =~= Seq::empty());
        r
    }

    /// The index of the handler registered under `(path, interface, member)`.
    pub fn lookup(&self, path: &str, interface: &str, member: &str) -> (r: Option<usize>)
        ensures
            match r {
                Some(i) => i < self.keys_view().len() && self.keys_view()[i as int] == (
                    path@,
                    interface@,
                    member@,
                ),
                None => forall|i: int|
                    0 <= i < self.keys_view().len() ==> self.keys_view()[i] != (
                        path@,
                        interface@,
                        member@,
                    ),
            },
    {
        let mut i: usize = 0;
        while i < self.keys.len()
            invariant
                i <= self.keys@.len(),
                forall|j: int|
                    0 <= j < i ==> self.keys_view()[j] != (path@, interface@, member@),
            decreases self.keys@.len() - i,
        {
            let k = &self.keys[i];
            if k.path.as_str().unicode_len() == path.unicode_len() && str_eq(k.path.as_str(), path)
                && str_eq(k.interface.as_str(), interface) && str_eq(k.member.as_str(), member) {
                return Some(i);
            }
            i += 1;
        }
        None
    }

    /// Registers `key`: a new key gets the next index, a known one keeps its
    /// index (its handler is replaced).
    pub fn add(&mut self, key: DBusMatch) -> (r: usize)
        ensures
            old(self).wf() ==> final(self).wf(),
            r < final(self).keys_view().len(),
            final(self).keys_view()[r as int] == key.view(),
            (exists|i: int|
                0 <= i < old(self).keys_view().len() && old(self).keys_view()[i] == key.view())
                ==> final(self).keys_view() == old(self).keys_view(),
            !(exists|i: int|
                0 <= i < old(self).keys_view().len() && old(self).keys_view()[i] == key.view())
                ==> final(self).keys_view() == old(self).keys_view().push(key.view()),
    {
        match self.lookup(key.path.as_str(), key.interface.as_str(), key.member.as_str()) {
            Some(i) => i,
            None => {
                let n = self.keys.len();
                let ghost kv = key.view();
                let ghost before = self.keys_view();
                self.keys.push(key);
                assert(self.keys_view() =~= before.push(kv));
                n
            },
        }
    }
}

/// Whether two texts are equal.
fn str_eq(a: &str, b: &str) -> (r: bool)
    ensures
        r == (a@ == b@),
{
    let n = a.unicode_len();
    if n != b.unicode_len() {
        return false;
    }
    let mut i: usize = 0;
    while i < n
        invariant
            n == a@.len() == b@.len(),
            i <= n,
            forall|j: int| 0 <= j < i ==> a@[j] == b@[j],
        decreases n - i,
    {
        if a.get_char(i) != b.get_char(i) {
            return false;
        }
        i += 1;
    }
    assert(a@ =~= b@);
    true
}

/// The signature of a list of arguments added one by one.
pub open spec fn args_sig(vs: Seq<Val>) -> Seq<char>
    decreases vs.len(),
{
    if vs.len() == 0 {
        Seq::empty()
    } else {
        args_sig(vs.drop_last()) + sig_of(vs.last())
    }
}

/// The body of a list of arguments added one by one.
pub open spec fn args_body(vs: Seq<Val>) -> Seq<u8>
    decreases vs.len(),
{
    if vs.len() == 0 {
        Seq::empty()
    } else {
        let pre = args_body(vs.drop_last());
        pre + enc(vs.last(), pre.len() as int)
    }
}

/// The reply a method call gets for what its handler answered: none when the
/// handler wants none or the caller expects none, otherwise a method return
/// for `reply_serial` carrying the values.
pub fn method_reply(reply_serial: u32, reply_expected: bool, val: MethodRetVal) -> (r: Option<Message>)
    ensures
        (val is NoReply || !reply_expected) ==> r is None,
        (val is EmptyReply && reply_expected) ==> (r matches Some(m) && is_fresh(m, MESSAGE_TYPE_METHOD_RETURN)
            && headers_view(m.headers@) == seq![
            header_val(HEADER_FIELD_REPLY_SERIAL, seq!['u'], Val::Uint32(reply_serial)),
        ]),
        match val {
            MethodRetVal::Reply(vs) => reply_expected ==> (r matches Some(m) && m.message_type.0
            == MESSAGE_TYPE_METHOD_RETURN && m.flags == 0 && m.serial == 0 && !m.big_endian
            && m.version == 1 && m.body@ == args_body(views(vs@, vs@.len())) && headers_view(m.headers@)
            == seq![header_val(HEADER_FIELD_REPLY_SERIAL, seq!['u'], Val::Uint32(reply_serial))]
            + if vs@.len() == 0 {
            Seq::empty()
        } else {
            seq![
                header_val(
                    HEADER_FIELD_SIGNATURE,
                    seq!['g'],
                    Val::Sig(args_sig(views(vs@, vs@.len()))),
                ),
            ]
        }),
            _ => true,
        },
{
    if !reply_expected {
        return None;
    }
    match val {
        MethodRetVal::NoReply => None,
        MethodRetVal::EmptyReply => Some(create_method_return(reply_serial)),
        MethodRetVal::Reply(vs) => {
            let mut reply = create_method_return(reply_serial);
            let ghost rs = header_val(HEADER_FIELD_REPLY_SERIAL, seq!['u'], Val::Uint32(reply_serial));
            let ghost all = views(vs@, vs@.len());
            proof {
                lemma_views(vs@, vs@.len());
            }
            proof {
                lemma_headers_view(reply.headers@);
                reveal_with_fuel(crate::message::header_index_from, 3);
                assert(headers_view(reply.headers@)[0] == rs);
                lemma_header_field(reply.headers@[0], HEADER_FIELD_REPLY_SERIAL, seq!['u'], Val::Uint32(reply_serial));
                assert(crate::message::header_index(reply.headers@, HEADER_FIELD_SIGNATURE) == -1);
                assert(all.subrange(0, 0) =~= Seq::<Val>::empty());
                assert(headers_view(reply.headers@) =~= seq![rs] + Seq::<Val>::empty());
            }
            let mut i: usize = 0;
            while i < vs.len()
                invariant
                    rs == header_val(HEADER_FIELD_REPLY_SERIAL, seq!['u'], Val::Uint32(reply_serial)),
                    all == views(vs@, vs@.len()),
                    all.len() == vs@.len(),
                    forall|j: int| 0 <= j < vs@.len() ==> #[trigger] all[j] == vs@[j]@,
                    i <= vs@.len(),
                    reply.message_type.0 == MESSAGE_TYPE_METHOD_RETURN,
                    reply.flags == 0,
                    reply.serial == 0,
                    !reply.big_endian,
                    reply.version == 1,
                    reply.sig_header_ok(),
                    reply.body@ == args_body(all.subrange(0, i as int)),
                    headers_view(reply.headers@) == seq![rs] + if i == 0 {
                        Seq::empty()
                    } else {
                        seq![
                            header_val(
                                HEADER_FIELD_SIGNATURE,
                                seq!['g'],
                                Val::Sig(args_sig(all.subrange(0, i as int))),
                            ),
                        ]
                    },
                decreases vs@.len() - i,
            {
                let ghost pre = all.subrange(0, i as int);
                let ghost next = all.subrange(0, i + 1);
                assert(next.drop_last() =~= pre);
                assert(next.last() == vs@[i as int]@);
                proof {
                    lemma_headers_view(reply.headers@);
                    reveal_with_fuel(crate::message::header_index_from, 3);
                    assert(headers_view(reply.headers@)[0] == rs);
                    lemma_header_field(reply.headers@[0], HEADER_FIELD_REPLY_SERIAL, seq!['u'], Val::Uint32(reply_serial));
                    if i > 0 {
                        assert(headers_view(reply.headers@)[1] == header_val(HEADER_FIELD_SIGNATURE, seq!['g'], Val::Sig(args_sig(pre))));
                        lemma_header_field(reply.headers@[1], HEADER_FIELD_SIGNATURE, seq!['g'], Val::Sig(args_sig(pre)));
                        assert(crate::message::header_index(reply.headers@, HEADER_FIELD_SIGNATURE) == 1);
                    } else {
                        assert(crate::message::header_index(reply.headers@, HEADER_FIELD_SIGNATURE) == -1);
                    }
                }
                reply = reply.add_arg(&vs[i]);
                i += 1;
                assert(headers_view(reply.headers@) =~= seq![rs] + seq![
                    header_val(HEADER_FIELD_SIGNATURE, seq!['g'], Val::Sig(args_sig(next))),
                ]);
            }
            assert(all.subrange(0, i as int) =~= all);
            Some(reply)
        },
    }
}

/// The `Error` name for a message that failed to decode.
pub open spec fn inconsistent_message_name() -> Seq<char> {
    "org.freedesktop.DBus.Error.InconsistentMessage"@
}

/// The `Error` name for arguments of the wrong type.
pub open spec fn invalid_signature_name() -> Seq<char> {
    "org.freedesktop.DBus.Error.InvalidSignature"@
}

/// The `Error` name for a message that no handler took.
pub open spec fn unknown_object_name() -> Seq<char> {
    "org.freedesktop.DBus.Error.UnknownObject"@
}

/// The error headers: reply serial, then error name.
pub open spec fn error_headers(name: Seq<char>, serial: u32) -> Seq<Val> {
    seq![
        header_val(HEADER_FIELD_REPLY_SERIAL, seq!['u'], Val::Uint32(serial)),
        header_val(HEADER_FIELD_ERROR_NAME, seq!['s'], Val::Str(name)),
    ]
}

/// The error reply to a message with serial `serial` that failed to decode:
/// `InconsistentMessage` with the decode error's name as its one argument;
/// also returns that name.
pub fn inconsistent_message_reply(err: MessageDecodeError, serial: u32) -> (r: (Message, String))
    ensures
        r.1@ == decode_error_text(err),
        r.0.message_type.0 == crate::message::MESSAGE_TYPE_ERROR,
        r.0.flags == 0 && r.0.version == 1 && r.0.serial == 0 && !r.0.big_endian,
        r.0.body@ == enc(Val::Str(decode_error_text(err)), 0),
        headers_view(r.0.headers@) == error_headers(inconsistent_message_name(), serial) + seq![
            header_val(HEADER_FIELD_SIGNATURE, seq!['g'], Val::Sig(seq!['s'])),
        ],
{
    let text = decode_error_name(err);
    let m = create_error("org.freedesktop.DBus.Error.InconsistentMessage", serial);
    proof {
        lemma_headers_view(m.headers@);
        reveal_with_fuel(crate::message::header_index_from, 4);
        lemma_header_field(m.headers@[0], HEADER_FIELD_REPLY_SERIAL, seq!['u'], Val::Uint32(serial));
        lemma_header_field(m.headers@[1], HEADER_FIELD_ERROR_NAME, seq!['s'], Val::Str(inconsistent_message_name()));
        assert(crate::message::header_index(m.headers@, HEADER_FIELD_SIGNATURE) == -1);
    }
    let m = m.add_arg(&text);
    assert(headers_view(m.headers@) =~= error_headers(inconsistent_message_name(), serial) + seq![
        header_val(HEADER_FIELD_SIGNATURE, seq!['g'], Val::Sig(seq!['s'])),
    ]);
    (m, text)
}

/// The error reply for arguments of the wrong type.
pub fn invalid_signature_reply(serial: u32) -> (r: Message)
    ensures
        is_fresh(r, crate::message::MESSAGE_TYPE_ERROR),
        headers_view(r.headers@) == error_headers(invalid_signature_name(), serial),
{
    create_error("org.freedesktop.DBus.Error.InvalidSignature", serial)
}

/// The error reply to a message that no handler took.
pub fn unknown_object_reply(serial: u32) -> (r: Message)
    ensures
        is_fresh(r, crate::message::MESSAGE_TYPE_ERROR),
        headers_view(r.headers@) == error_headers(unknown_object_name(), serial),
{
    create_error("org.freedesktop.DBus.Error.UnknownObject", serial)
}

/// Something that takes received messages.
pub trait MessageHandler {
    /// Handles one message: handled messages are consumed; a message that
    /// fails to decode is answered with an error and its reason returned; a
    /// message not taken comes back in `Err`.
    fn handle_message<T: MessageSender>(&mut self, sender: &mut T, msg: Message) -> HandlerResult;
}

/// Takes every message and answers it with `UnknownObject`.
pub struct NoMatchHandler;

/// Answering `msg` with `UnknownObject` ends in `r`: exactly one message,
/// `sent`, was handed to the sender, which returned `result`.
pub open spec fn no_match_outcome(msg: Message, r: HandlerResult, sent: Message, result: Result<
    u32,
    connection::Error,
>) -> bool {
    &&& is_fresh(sent, crate::message::MESSAGE_TYPE_ERROR)
    &&& headers_view(sent.headers@) == error_headers(unknown_object_name(), msg.serial)
    &&& r is Ok
    &&& result is Ok ==> r == Ok::<Result<(), String>, Message>(Ok(()))
    &&& (result is Err && connection_error_text(result->Err_0) is Some) ==> (r matches Ok(Err(x))
        && x@ == "Connection send error "@ + connection_error_text(result->Err_0)->Some_0)
}

impl NoMatchHandler {
    /// Answers `msg` with `UnknownObject`; also returns, as ghost values, the
    /// message handed to the sender and what the send returned.
    pub fn handle_logged<T: MessageSender>(&mut self, sender: &mut T, msg: Message) -> (r: (
        HandlerResult,
        Ghost<Message>,
        Ghost<Result<u32, connection::Error>>,
    ))
        ensures
            no_match_outcome(msg, r.0, r.1@, r.2@),
    {
        let reply = unknown_object_reply(msg.serial);
        let mut sent: Ghost<Seq<Message>> = Ghost(Seq::empty());
        let mut results: Ghost<Seq<Result<u32, connection::Error>>> = Ghost(Seq::empty());
        let ghost handed = reply;
        let res = send_logged(sender, reply, &mut sent, &mut results);
        let ghost returned = results@[0];
        let r = match res {
            Ok(_) => Ok(Ok(())),
            Err(e) => Ok(Err(connection_err_string(e))),
        };
        (r, Ghost(handed), Ghost(returned))
    }
}

impl MessageHandler for NoMatchHandler {
    fn handle_message<T: MessageSender>(&mut self, sender: &mut T, msg: Message) -> (r: HandlerResult)
        ensures
            r is Ok,
            exists|sent: Message, result: Result<u32, connection::Error>|
                #[trigger] no_match_outcome(msg, r, sent, result),
    {
        let (r, sent, result) = self.handle_logged(sender, msg);
        assert(no_match_outcome(msg, r, sent@, result@));
        r
    }
}

/// Chains handlers: a message not taken goes on to the next one.
pub trait HandlerChain: Sized {
    fn chain<H: MessageHandler, S: MessageSender>(self, sender: &mut S, handler: &mut H) -> Self;
}

impl HandlerChain for Result<Result<(), String>, Message> {
    fn chain<H: MessageHandler, S: MessageSender>(self, sender: &mut S, handler: &mut H) -> (r: Self)
        ensures
            self is Ok ==> r == self,
    {
        match self {
            Err(m) => handler.handle_message(sender, m),
            Ok(r) => Ok(r),
        }
    }
}


/// A sender handed to a handler.
pub struct MessageSenderWrapper<'a, S: MessageSender>(pub &'a mut S);

impl<'a, S: MessageSender> MessageSenderWrapper<'a, S> {
    pub fn send(&mut self, mbuf: &mut Message) -> Result<u32, connection::Error> {
        self.0.send(mbuf)
    }

    pub fn call_sync(&mut self, mbuf: &mut Message) -> Result<Option<Vec<Value>>, connection::Error> {
        self.0.call_sync(mbuf)
    }
}

/// A handler of method calls, implemented by users of the dispatcher.
pub trait MethodHandler {
    fn call<S: MessageSender>(&mut self, sender: MessageSenderWrapper<S>, mth: MethodCall) -> Result<MethodRetVal, DispatchError>;
}

/// A handler of signals, implemented by users of the dispatcher.
pub trait SignalHandler {
    fn call<S: MessageSender>(&mut self, sender: MessageSenderWrapper<S>, sig: Signal) -> Result<(), DispatchError>;
}

/// Where a received message goes.
#[derive(Debug)]
pub enum Route {
    /// To the method handler with this index.
    Method(usize, MethodCall),
    /// To the signal handler with this index.
    Signal(usize, Signal),
    /// Nowhere here: the message is handed back.
    Unhandled,
    /// The message does not decode: it is answered with an error.
    Failed(MessageDecodeError),
}

/// The key a method call is dispatched by.
pub open spec fn call_key(m: Message) -> (Seq<char>, Seq<char>, Seq<char>) {
    (
        crate::message::header_text(m, crate::message::HEADER_FIELD_PATH)->Some_0,
        interface_or_empty(m),
        crate::message::header_text(m, crate::message::HEADER_FIELD_MEMBER)->Some_0,
    )
}

/// The key a signal is dispatched by.
pub open spec fn signal_key(m: Message) -> (Seq<char>, Seq<char>, Seq<char>) {
    (
        crate::message::header_text(m, crate::message::HEADER_FIELD_PATH)->Some_0,
        crate::message::header_text(m, crate::message::HEADER_FIELD_INTERFACE)->Some_0,
        crate::message::header_text(m, crate::message::HEADER_FIELD_MEMBER)->Some_0,
    )
}

/// A message that decodes but that no handler here takes: a method return,
/// an error, or a call or signal whose key has no handler of its kind.
pub open spec fn unmatched(
    methods: Seq<(Seq<char>, Seq<char>, Seq<char>)>,
    signals: Seq<(Seq<char>, Seq<char>, Seq<char>)>,
    m: Message,
) -> bool {
    let t = m.message_type.0;
    &&& decodes(m)
    &&& (t == MESSAGE_TYPE_METHOD_RETURN || t == crate::message::MESSAGE_TYPE_ERROR || (t
        == crate::message::MESSAGE_TYPE_METHOD_CALL && !methods.contains(call_key(m))) || (t
        == crate::message::MESSAGE_TYPE_SIGNAL && !signals.contains(signal_key(m))))
}

/// Routes a message: signals and method calls by `(path, interface, member)`
/// to the signal and method tables; method returns and errors are not
/// dispatched.
pub fn route(methods: &HandlerTable, signals: &HandlerTable, msg: &Message) -> (r: Route)
    ensures
        r matches Route::Method(i, m) ==> i < methods.keys_view().len() && methods.keys_view()[i as int]
            == (m.path@, m.interface@, m.member@) && msg.message_type.0
            == crate::message::MESSAGE_TYPE_METHOD_CALL,
        r matches Route::Signal(i, g) ==> i < signals.keys_view().len() && signals.keys_view()[i as int]
            == (g.path@, g.interface@, g.member@) && msg.message_type.0
            == crate::message::MESSAGE_TYPE_SIGNAL,
        r is Failed <==> !decodes(*msg),
        r is Unhandled <==> unmatched(methods.keys_view(), signals.keys_view(), *msg),
        r matches Route::Method(_, m) ==> self::message_types::is_method_call_of(*msg, m),
        r matches Route::Signal(_, g) ==> self::message_types::is_signal_of(*msg, g),
{
    match decode_message(msg) {
        Ok(MessageType::Method(m)) => match methods.lookup(m.path.as_str(), m.interface.as_str(), m.member.as_str()) {
            Some(i) => Route::Method(i, m),
            None => Route::Unhandled,
        },
        Ok(MessageType::Signal(g)) => match signals.lookup(g.path.as_str(), g.interface.as_str(), g.member.as_str()) {
            Some(i) => Route::Signal(i, g),
            None => Route::Unhandled,
        },
        Ok(_) => Route::Unhandled,
        Err(e) => Route::Failed(e),
    }
}

/// The error reply that a failed dispatch sends, and the reason reported;
/// `None` for a message that was not taken.
pub fn error_reply(err: DispatchError, serial: u32) -> (r: Option<(Message, String)>)
    ensures
        err is UnhandledMessage <==> r is None,
        err matches DispatchError::MessageDecodeError(e) ==> (r matches Some((m, t)) && t@ == decode_error_text(e)
            && headers_view(m.headers@) == error_headers(inconsistent_message_name(), serial) + seq![
            header_val(HEADER_FIELD_SIGNATURE, seq!['g'], Val::Sig(seq!['s'])),
        ] && m.body@ == enc(Val::Str(decode_error_text(e)), 0)),
        err matches DispatchError::MessageDecodeError(_) ==> (r matches Some((m, _))
            && m.message_type.0 == crate::message::MESSAGE_TYPE_ERROR && m.flags == 0 && m.version == 1
            && m.serial == 0 && !m.big_endian),
        err is InvalidArguments ==> (r matches Some((m, t)) && t@ == "Invalid arguments"@
            && is_fresh(m, crate::message::MESSAGE_TYPE_ERROR)
            && headers_view(m.headers@) == error_headers(invalid_signature_name(), serial)),
        err matches DispatchError::OtherError(s) ==> (r matches Some((m, t)) && t@ == s@
            && is_fresh(m, crate::message::MESSAGE_TYPE_ERROR)
            && headers_view(m.headers@) == error_headers(s@, serial)),
{
    match err {
        DispatchError::MessageDecodeError(e) => Some(inconsistent_message_reply(e, serial)),
        DispatchError::InvalidArguments => Some(
            (invalid_signature_reply(serial), "Invalid arguments".to_owned()),
        ),
        DispatchError::OtherError(s) => {
            let m = create_error(s.as_str(), serial);
            Some((m, s))
        },
        DispatchError::UnhandledMessage => None,
    }
}

/// Dispatches signals and method calls to registered handlers.
pub struct MessageDispatcher<M, G> {
    methods: HandlerTable,
    method_handlers: Vec<M>,
    signals: HandlerTable,
    signal_handlers: Vec<G>,
}

impl<M: MethodHandler, G: SignalHandler> MessageDispatcher<M, G> {
    /// The keys of the registered method handlers, in registration order.
    pub closed spec fn method_keys(&self) -> Seq<(Seq<char>, Seq<char>, Seq<char>)> {
        self.methods.keys_view()
    }

    /// The keys of the registered signal handlers, in registration order.
    pub closed spec fn signal_keys(&self) -> Seq<(Seq<char>, Seq<char>, Seq<char>)> {
        self.signals.keys_view()
    }

    /// The method handlers, in the order of `method_keys`.
    pub closed spec fn method_handler_seq(&self) -> Seq<M> {
        self.method_handlers@
    }

    /// The signal handlers, in the order of `signal_keys`.
    pub closed spec fn signal_handler_seq(&self) -> Seq<G> {
        self.signal_handlers@
    }

    /// Each key is registered once and has its handler.
    pub closed spec fn wf(&self) -> bool {
        &&& self.methods.wf()
        &&& self.signals.wf()
        &&& self.method_handlers@.len() == self.methods.keys_view().len()
        &&& self.signal_handlers@.len() == self.signals.keys_view().len()
    }

    pub fn new() -> (r: MessageDispatcher<M, G>)
        ensures
            r.wf(),
            r.method_keys().len() == 0,
            r.signal_keys().len() == 0,
    {
        MessageDispatcher {
            methods: HandlerTable::new(),
            method_handlers: Vec::new(),
            signals: HandlerTable::new(),
            signal_handlers: Vec::new(),
        }
    }

    /// Registers (or replaces) the handler of a signal.
    pub fn add_signal(&mut self, path: String, interface: String, member: String, cl: G)
        ensures
            old(self).wf() ==> final(self).wf(),
            final(self).method_keys() == old(self).method_keys(),
            final(self).method_handler_seq() == old(self).method_handler_seq(),
            old(self).wf() ==> forall|i: int|
                0 <= i < old(self).signal_keys().len() && old(self).signal_keys()[i] == (
                    path@,
                    interface@,
                    member@,
                ) ==> final(self).signal_handler_seq() == old(self).signal_handler_seq().update(i, cl),
            old(self).wf() && !old(self).signal_keys().contains((path@, interface@, member@))
                ==> final(self).signal_handler_seq() == old(self).signal_handler_seq().push(cl),
            old(self).signal_keys().contains((path@, interface@, member@)) ==> final(self).signal_keys()
                == old(self).signal_keys(),
            !old(self).signal_keys().contains((path@, interface@, member@)) ==> final(self).signal_keys()
                == old(self).signal_keys().push((path@, interface@, member@)),
    {
        let i = self.signals.add(DBusMatch::new(path, interface, member));
        if i < self.signal_handlers.len() {
            self.signal_handlers.set(i, cl);
        } else {
            self.signal_handlers.push(cl);
        }
    }

    /// Registers (or replaces) the handler of a method.
    pub fn add_method(&mut self, path: String, interface: String, member: String, cl: M)
        ensures
            old(self).wf() ==> final(self).wf(),
            final(self).signal_keys() == old(self).signal_keys(),
            final(self).signal_handler_seq() == old(self).signal_handler_seq(),
            old(self).wf() ==> forall|i: int|
                0 <= i < old(self).method_keys().len() && old(self).method_keys()[i] == (
                    path@,
                    interface@,
                    member@,
                ) ==> final(self).method_handler_seq() == old(self).method_handler_seq().update(i, cl),
            old(self).wf() && !old(self).method_keys().contains((path@, interface@, member@))
                ==> final(self).method_handler_seq() == old(self).method_handler_seq().push(cl),
            old(self).method_keys().contains((path@, interface@, member@)) ==> final(self).method_keys()
                == old(self).method_keys(),
            !old(self).method_keys().contains((path@, interface@, member@)) ==> final(self).method_keys()
                == old(self).method_keys().push((path@, interface@, member@)),
    {
        let i = self.methods.add(DBusMatch::new(path, interface, member));
        if i < self.method_handlers.len() {
            self.method_handlers.set(i, cl);
        } else {
            self.method_handlers.push(cl);
        }
    }

    /// Handles one message; see `MessageHandler::handle_message`.
    pub fn dispatch<T: MessageSender>(&mut self, sender: &mut T, msg: Message) -> (r: HandlerResult)
        ensures
            final(self).method_keys() == old(self).method_keys(),
            final(self).signal_keys() == old(self).signal_keys(),
            old(self).wf() ==> final(self).wf(),
            handled(old(self).method_keys(), old(self).signal_keys(), old(self).wf(), msg, r),
    {
        let (r, sent, results, answer) = self.dispatch_logged(sender, msg);
        proof {
            lemma_handled(
                old(self).method_keys(),
                old(self).signal_keys(),
                old(self).wf(),
                msg,
                r,
                sent@,
                results@,
                answer@,
            );
        }
        r
    }

    /// Handles one message as `dispatch` does; also returns, as ghost
    /// values, the messages that the dispatcher itself handed to
    /// `sender.send`, in order (a handler may send more through its wrapper),
    /// and the answer of the method handler it called, if any.
    pub fn dispatch_logged<T: MessageSender>(&mut self, sender: &mut T, msg: Message) -> (r: (
        HandlerResult,
        Ghost<Seq<Message>>,
        Ghost<Seq<Result<u32, connection::Error>>>,
        Ghost<Option<Result<MethodRetVal, DispatchError>>>,
    ))
        ensures
            final(self).method_keys() == old(self).method_keys(),
            final(self).signal_keys() == old(self).signal_keys(),
            old(self).wf() ==> final(self).wf(),
            dispatch_outcome(
                old(self).method_keys(),
                old(self).signal_keys(),
                old(self).wf(),
                msg,
                r.0,
                r.1@,
                r.2@,
                r.3@,
            ),
    {
        let serial = msg.serial;
        let reply_expected = (msg.flags & FLAGS_NO_REPLY_EXPECTED) == 0;
        let mut sent: Ghost<Seq<Message>> = Ghost(Seq::empty());
        let mut results: Ghost<Seq<Result<u32, connection::Error>>> = Ghost(Seq::empty());
        let mut answer: Ghost<Option<Result<MethodRetVal, DispatchError>>> = Ghost(None);
        let r: Result<(), DispatchError> = match route(&self.methods, &self.signals, &msg) {
            Route::Method(i, m) => if i >= self.method_handlers.len() {
                Err(DispatchError::UnhandledMessage)
            } else {
                let mut h = self.method_handlers.remove(i);
                let res = h.call(MessageSenderWrapper(sender), m);
                self.method_handlers.insert(i, h);
                proof {
                    answer@ = Some(res);
                }
                match res {
                    Ok(val) => match method_reply(serial, reply_expected, val) {
                        Some(reply) => match send_logged(sender, reply, &mut sent, &mut results) {
                            Ok(_) => Ok(()),
                            Err(e) => Err(DispatchError::OtherError(connection_err_string(e))),
                        },
                        None => Ok(()),
                    },
                    Err(e) => Err(e),
                }
            },
            Route::Signal(i, g) => if i >= self.signal_handlers.len() {
                Err(DispatchError::UnhandledMessage)
            } else {
                let mut h = self.signal_handlers.remove(i);
                let res = h.call(MessageSenderWrapper(sender), g);
                self.signal_handlers.insert(i, h);
                res
            },
            Route::Unhandled => Err(DispatchError::UnhandledMessage),
            Route::Failed(e) => Err(DispatchError::MessageDecodeError(e)),
        };
        let result = match r {
            Ok(()) => Ok(Ok(())),
            Err(e) => match error_reply(e, serial) {
                Some((reply, reason)) => match send_logged(sender, reply, &mut sent, &mut results) {
                    Ok(_) => Ok(Err(reason)),
                    Err(e2) => Ok(Err(connection_err_string(e2))),
                },
                None => Err(msg),
            },
        };
        (result, sent, results, answer)
    }
}

/// What handling `msg` ends in, for a dispatcher with method keys `mk`,
/// signal keys `sk` (well-formed when `wf`): the result `r`, the messages
/// `sent` that the dispatcher handed to the sender with what each send
/// returned (`results`), and the answer of the method handler it called.
pub open spec fn dispatch_outcome(
    mk: Seq<(Seq<char>, Seq<char>, Seq<char>)>,
    sk: Seq<(Seq<char>, Seq<char>, Seq<char>)>,
    wf: bool,
    msg: Message,
    r: HandlerResult,
    sent: Seq<Message>,
    results: Seq<Result<u32, connection::Error>>,
    answer: Option<Result<MethodRetVal, DispatchError>>,
) -> bool {
    let no_reply_expected = (msg.flags & FLAGS_NO_REPLY_EXPECTED) != 0;
    let rs = header_val(HEADER_FIELD_REPLY_SERIAL, seq!['u'], Val::Uint32(msg.serial));
    let done = Ok::<Result<(), String>, Message>(Ok(()));
    &&& answer is Some ==> msg.message_type.0 == crate::message::MESSAGE_TYPE_METHOD_CALL
        && decodes(msg) && mk.contains(call_key(msg))
    &&& (wf && decodes(msg) && msg.message_type.0 == crate::message::MESSAGE_TYPE_METHOD_CALL
        && mk.contains(call_key(msg))) ==> answer is Some
    &&& answer matches Some(Ok(MethodRetVal::NoReply)) ==> r == done && sent.len() == 0
    &&& (answer matches Some(Ok(_)) && no_reply_expected) ==> r == done && sent.len() == 0
    &&& (answer matches Some(Ok(MethodRetVal::EmptyReply)) && !no_reply_expected) ==> (sent.len()
        >= 1 && is_fresh(sent[0], MESSAGE_TYPE_METHOD_RETURN) && headers_view(sent[0].headers@)
        == seq![rs])
    &&& match answer {
        Some(Ok(MethodRetVal::Reply(vs))) => !no_reply_expected ==> (sent.len() >= 1
            && sent[0].message_type.0 == MESSAGE_TYPE_METHOD_RETURN && sent[0].body@ == args_body(
            views(vs@, vs@.len()),
        ) && headers_view(sent[0].headers@) == seq![rs] + if vs@.len() == 0 {
            Seq::empty()
        } else {
            seq![
                header_val(
                    HEADER_FIELD_SIGNATURE,
                    seq!['g'],
                    Val::Sig(args_sig(views(vs@, vs@.len()))),
                ),
            ]
        }),
        _ => true,
    }
    &&& r matches Err(m) ==> m == msg && sent.len() == 0
    &&& unmatched(mk, sk, msg) ==> r == Err::<Result<(), String>, Message>(msg)
    &&& !decodes(msg) ==> (r matches Ok(Err(_)) && sent.len() == 1 && sent[0].message_type.0
        == crate::message::MESSAGE_TYPE_ERROR && headers_view(sent[0].headers@) == error_headers(
        inconsistent_message_name(),
        msg.serial,
    ) + seq![header_val(HEADER_FIELD_SIGNATURE, seq!['g'], Val::Sig(seq!['s']))])
    &&& sent.len() <= 2
    &&& forall|i: int| 0 <= i < sent.len() ==> is_reply_to(#[trigger] sent[i], msg.serial)
    &&& no_reply_expected ==> forall|i: int|
        0 <= i < sent.len() ==> (#[trigger] sent[i]).message_type.0
            == crate::message::MESSAGE_TYPE_ERROR
    &&& sent.len() == results.len()
    &&& (sent.len() >= 1 && results.last() is Err && connection_error_text(results.last()->Err_0) is Some)
        ==> (r matches Ok(Err(x)) && x@ == "Connection send error "@ + connection_error_text(
        results.last()->Err_0,
    )->Some_0)
    &&& (sent.len() >= 1 && results.last() is Ok && sent.last().message_type.0
        == MESSAGE_TYPE_METHOD_RETURN) ==> r == done
    &&& sent.len() == 2 ==> (sent[0].message_type.0 == MESSAGE_TYPE_METHOD_RETURN
        && results[0] is Err && (connection_error_text(results[0]->Err_0) is Some ==> headers_view(
        sent[1].headers@,
    ) == error_headers(
        "Connection send error "@ + connection_error_text(results[0]->Err_0)->Some_0,
        msg.serial,
    )))
}

/// Handling `msg` can end in `r`: there are messages the dispatcher handed
/// to the sender, what those sends returned, and a handler answer, with
/// which `dispatch_outcome` holds.
pub open spec fn handled(
    mk: Seq<(Seq<char>, Seq<char>, Seq<char>)>,
    sk: Seq<(Seq<char>, Seq<char>, Seq<char>)>,
    wf: bool,
    msg: Message,
    r: HandlerResult,
) -> bool {
    exists|
        sent: Seq<Message>,
        results: Seq<Result<u32, connection::Error>>,
        answer: Option<Result<MethodRetVal, DispatchError>>,
    | #[trigger] dispatch_outcome(mk, sk, wf, msg, r, sent, results, answer)
}

proof fn lemma_handled(
    mk: Seq<(Seq<char>, Seq<char>, Seq<char>)>,
    sk: Seq<(Seq<char>, Seq<char>, Seq<char>)>,
    wf: bool,
    msg: Message,
    r: HandlerResult,
    sent: Seq<Message>,
    results: Seq<Result<u32, connection::Error>>,
    answer: Option<Result<MethodRetVal, DispatchError>>,
)
    requires
        dispatch_outcome(mk, sk, wf, msg, r, sent, results, answer),
    ensures
        handled(mk, sk, wf, msg, r),
{
}

/// A reply to the message with serial `serial`: its first header is that
/// reply serial.
pub open spec fn is_reply_to(m: Message, serial: u32) -> bool {
    headers_view(m.headers@).len() >= 1 && headers_view(m.headers@)[0] == header_val(
        HEADER_FIELD_REPLY_SERIAL,
        seq!['u'],
        Val::Uint32(serial),
    )
}

/// Sends `m` through `sender`, recording in `sent` the message handed over.
fn send_logged<T: MessageSender>(
    sender: &mut T,
    m: Message,
    sent: &mut Ghost<Seq<Message>>,
    results: &mut Ghost<Seq<Result<u32, connection::Error>>>,
) -> (r: Result<u32, connection::Error>)
    ensures
        final(sent)@ == old(sent)@.push(m),
        final(results)@ == old(results)@.push(r),
{
    let ghost handed = m;
    let mut m = m;
    let r = sender.send(&mut m);
    proof {
        sent@ = sent@.push(handed);
        results@ = results@.push(r);
    }
    r
}

impl<M: MethodHandler, G: SignalHandler> MessageHandler for MessageDispatcher<M, G> {
    fn handle_message<T: MessageSender>(&mut self, sender: &mut T, msg: Message) -> (r: HandlerResult)
        ensures
            final(self).method_keys() == old(self).method_keys(),
            final(self).signal_keys() == old(self).signal_keys(),
            old(self).wf() ==> final(self).wf(),
            handled(old(self).method_keys(), old(self).signal_keys(), old(self).wf(), msg, r),
    {
        self.dispatch(sender, msg)
    }
}

} // verus!
