//! Messages: a header record and an opaque, already encoded body.
use vstd::prelude::*;
use vstd::string::*;
use crate::demarshal::{dec, dm, DemarshalError};
use crate::marshal::{code_string_yv, enc, le, pad_len, pad_to_multiple, sig_of, zeros, Marshal, MarshalType};
use crate::value::{views, BasicValue, Path, Signature, Val, Value, Variant};

verus! {

/// The kind of a message, as its wire code.
#[derive(Debug, Clone, Copy, PartialEq, Eq, Structural)]
pub struct MessageType(pub u8);

pub const MESSAGE_TYPE_INVALID: u8 = 0;
pub const MESSAGE_TYPE_METHOD_CALL: u8 = 1;
pub const MESSAGE_TYPE_METHOD_RETURN: u8 = 2;
pub const MESSAGE_TYPE_ERROR: u8 = 3;
pub const MESSAGE_TYPE_SIGNAL: u8 = 4;

pub const HEADER_FIELD_INVALID: u8 = 0;
pub const HEADER_FIELD_PATH: u8 = 1;
pub const HEADER_FIELD_INTERFACE: u8 = 2;
pub const HEADER_FIELD_MEMBER: u8 = 3;
pub const HEADER_FIELD_ERROR_NAME: u8 = 4;
pub const HEADER_FIELD_REPLY_SERIAL: u8 = 5;
pub const HEADER_FIELD_DESTINATION: u8 = 6;
pub const HEADER_FIELD_SENDER: u8 = 7;
pub const HEADER_FIELD_SIGNATURE: u8 = 8;

pub const FLAGS_NO_REPLY_EXPECTED: u8 = 1;

/// One header field: its code and its value.
#[derive(Debug)]
pub struct HeaderField(pub u8, pub Variant);

impl HeaderField {
    /// The field as the `(yv)` struct it is sent as.
    pub open spec fn view(&self) -> Val {
        Val::Struct(
            seq!['(', 'y', 'v', ')'],
            seq![
                Val::Byte(self.0),
                Val::Variant(self.1.signature.0@, Box::new((*self.1.object)@)),
            ],
        )
    }
}

/// The header field with code `code` whose value is `v`, of signature `sig`.
pub open spec fn header_val(code: u8, sig: Seq<char>, v: Val) -> Val {
    Val::Struct(seq!['(', 'y', 'v', ')'], seq![Val::Byte(code), Val::Variant(sig, Box::new(v))])
}

impl Marshal for HeaderField {
    open spec fn model(&self) -> Val {
        self.view()
    }

    fn dbus_encode(&self, buf: &mut Vec<u8>) -> (r: usize) {
        let ghost off = buf@.len() as int;
        let start = buf.len();
        pad_to_multiple(buf, 8);
        let lead = buf.len() - start;
        let ghost at = buf@.len() as int;
        self.0.dbus_encode(buf);
        let ghost at1 = buf@.len() as int;
        self.1.dbus_encode(buf);
        proof {
            let fs = seq![
                Val::Byte(self.0),
                Val::Variant(self.1.signature.0@, Box::new((*self.1.object)@)),
            ];
            reveal_with_fuel(crate::marshal::enc_seq, 3);
            assert(pad_len(at, 1) == 0);
            assert(enc(Val::Byte(self.0), at) =~= seq![self.0]);
            assert(fs.subrange(1, 2).subrange(1, 1) =~= Seq::<Val>::empty());
            assert(fs.subrange(1, 2)[0] == fs[1]);
            assert(fs.subrange(1, 2) =~= seq![fs[1]]);
            assert(crate::marshal::enc_seq(fs.subrange(1, 2), at1) =~= enc(fs[1], at1));
            assert(crate::marshal::enc_seq(fs, at) =~= enc(fs[0], at) + enc(fs[1], at1));
        }
        assert(buf@ =~= old(buf)@ + enc(self.model(), off));
        buf.len() - start - lead
    }

    fn get_type(&self) -> (r: String) {
        code_string_yv()
    }
}

impl MarshalType for HeaderField {
    open spec fn type_sig() -> Seq<char> {
        seq!['(', 'y', 'v', ')']
    }

    fn signature() -> (r: String) {
        code_string_yv()
    }
}

/// A message: header record and opaque body bytes.
#[derive(Debug)]
pub struct Message {
    pub big_endian: bool,
    pub message_type: MessageType,
    pub flags: u8,
    pub version: u8,
    pub serial: u32,
    pub headers: Vec<HeaderField>,
    pub body: Vec<u8>,
}

/// The models of the header fields.
pub open spec fn headers_view(hs: Seq<HeaderField>) -> Seq<Val> {
    Seq::new(hs.len(), |i: int| hs[i].view())
}

pub proof fn lemma_headers_view(hs: Seq<HeaderField>)
    ensures
        headers_view(hs).len() == hs.len(),
        forall|i: int| 0 <= i < hs.len() ==> #[trigger] headers_view(hs)[i] == hs[i].view(),
{
}

/// A header field that is `header_val(c, s, v)` has code `c`, signature `s`
/// and value `v`.
pub proof fn lemma_header_field(h: HeaderField, c: u8, s: Seq<char>, v: Val)
    requires
        h.view() == header_val(c, s, v),
    ensures
        h.0 == c,
        h.1.signature.0@ == s,
        (*h.1.object)@ == v,
{
    let a = h.view()->Struct_1;
    let b = header_val(c, s, v)->Struct_1;
    assert(a[0] == b[0]);
    assert(a[1] == b[1]);
}

/// The index of the first header of `hs[i..]` with code `code`, or -1.
pub open spec fn header_index_from(hs: Seq<HeaderField>, code: u8, i: int) -> int
    decreases hs.len() - i,
{
    if i < 0 || i >= hs.len() {
        -1
    } else if hs[i].0 == code {
        i
    } else {
        header_index_from(hs, code, i + 1)
    }
}

/// The index of the first header with code `code`, or -1.
pub open spec fn header_index(hs: Seq<HeaderField>, code: u8) -> int {
    header_index_from(hs, code, 0)
}

proof fn lemma_header_index_from(hs: Seq<HeaderField>, code: u8, i: int)
    requires
        0 <= i,
    ensures
        header_index_from(hs, code, i) == -1 || (i <= header_index_from(hs, code, i) < hs.len()
            && hs[header_index_from(hs, code, i)].0 == code),
        header_index_from(hs, code, i) == -1 ==> forall|j: int|
            i <= j < hs.len() ==> #[trigger] hs[j].0 != code,
        forall|j: int|
            i <= j < header_index_from(hs, code, i) ==> #[trigger] hs[j].0 != code,
    decreases hs.len() - i,
{
    if i < hs.len() && hs[i].0 != code {
        lemma_header_index_from(hs, code, i + 1);
    }
}

/// The signature that a message's `Signature` header holds, if it has one
/// holding a signature.
pub open spec fn body_sig(m: Message) -> Option<Seq<char>> {
    let i = header_index(m.headers@, HEADER_FIELD_SIGNATURE);
    if i < 0 {
        None
    } else {
        match (*m.headers@[i].1.object)@ {
            Val::Sig(s) => Some(s),
            _ => None,
        }
    }
}

/// A message with the given kind, no headers and an empty body.
pub open spec fn is_fresh(m: Message, kind: u8) -> bool {
    &&& !m.big_endian
    &&& m.message_type == MessageType(kind)
    &&& m.flags == 0
    &&& m.version == 1
    &&& m.serial == 0
    &&& m.body@.len() == 0
}

fn new_message(kind: u8) -> (r: Message)
    ensures
        is_fresh(r, kind),
        r.headers@.len() == 0,
{
    Message {
        big_endian: false,
        message_type: MessageType(kind),
        flags: 0,
        version: 1,
        serial: 0,
        headers: Vec::new(),
        body: Vec::new(),
    }
}

/// A string as a header value.
fn str_variant(s: &str) -> (r: Variant)
    ensures
        r.signature.0@ == seq!['s'],
        (*r.object)@ == Val::Str(s@),
{
    proof {
        reveal_strlit("s");
    }
    let r = Variant::new(Value::BasicValue(BasicValue::String(s.to_owned())), "s");
    assert(r.signature.0@ =~= seq!['s']);
    r
}

/// An object path as a header value.
fn path_variant(s: &str) -> (r: Variant)
    ensures
        r.signature.0@ == seq!['o'],
        (*r.object)@ == Val::ObjectPath(s@),
{
    proof {
        reveal_strlit("o");
    }
    let r = Variant::new(Value::BasicValue(BasicValue::ObjectPath(Path(s.to_owned()))), "o");
    assert(r.signature.0@ =~= seq!['o']);
    r
}

/// A serial as a header value.
fn u32_variant(x: u32) -> (r: Variant)
    ensures
        r.signature.0@ == seq!['u'],
        (*r.object)@ == Val::Uint32(x),
{
    proof {
        reveal_strlit("u");
    }
    let r = Variant::new(Value::BasicValue(BasicValue::Uint32(x)), "u");
    assert(r.signature.0@ =~= seq!['u']);
    r
}

/// A signature as a header value.
fn sig_variant(s: String) -> (r: Variant)
    ensures
        r.signature.0@ == seq!['g'],
        (*r.object)@ == Val::Sig(s@),
{
    proof {
        reveal_strlit("g");
    }
    let r = Variant::new(Value::BasicValue(BasicValue::Signature(Signature(s))), "g");
    assert(r.signature.0@ =~= seq!['g']);
    r
}

/// Creates a method call. Arguments can then be added with `add_arg`.
pub fn create_method_call(dest: &str, path: &str, iface: &str, method: &str) -> (r: Message)
    ensures
        is_fresh(r, MESSAGE_TYPE_METHOD_CALL),
        headers_view(r.headers@) == seq![
            header_val(HEADER_FIELD_DESTINATION, seq!['s'], Val::Str(dest@)),
            header_val(HEADER_FIELD_PATH, seq!['o'], Val::ObjectPath(path@)),
            header_val(HEADER_FIELD_INTERFACE, seq!['s'], Val::Str(iface@)),
            header_val(HEADER_FIELD_MEMBER, seq!['s'], Val::Str(method@)),
        ],
{
    let r = new_message(MESSAGE_TYPE_METHOD_CALL).add_header(HEADER_FIELD_DESTINATION, str_variant(dest)).add_header(
        HEADER_FIELD_PATH,
        path_variant(path),
    ).add_header(HEADER_FIELD_INTERFACE, str_variant(iface)).add_header(
        HEADER_FIELD_MEMBER,
        str_variant(method),
    );
    assert(headers_view(r.headers@) =~= seq![
        header_val(HEADER_FIELD_DESTINATION, seq!['s'], Val::Str(dest@)),
        header_val(HEADER_FIELD_PATH, seq!['o'], Val::ObjectPath(path@)),
        header_val(HEADER_FIELD_INTERFACE, seq!['s'], Val::Str(iface@)),
        header_val(HEADER_FIELD_MEMBER, seq!['s'], Val::Str(method@)),
    ]);
    r
}

/// Creates a method return for the call with serial `reply_serial`.
pub fn create_method_return(reply_serial: u32) -> (r: Message)
    ensures
        is_fresh(r, MESSAGE_TYPE_METHOD_RETURN),
        headers_view(r.headers@) == seq![
            header_val(HEADER_FIELD_REPLY_SERIAL, seq!['u'], Val::Uint32(reply_serial)),
        ],
{
    let r = new_message(MESSAGE_TYPE_METHOD_RETURN).add_header(
        HEADER_FIELD_REPLY_SERIAL,
        u32_variant(reply_serial),
    );
    assert(headers_view(r.headers@) =~= seq![
        header_val(HEADER_FIELD_REPLY_SERIAL, seq!['u'], Val::Uint32(reply_serial)),
    ]);
    r
}

/// Creates an error named `error_name` in reply to the message with serial
/// `reply_serial`.
pub fn create_error(error_name: &str, reply_serial: u32) -> (r: Message)
    ensures
        is_fresh(r, MESSAGE_TYPE_ERROR),
        headers_view(r.headers@) == seq![
            header_val(HEADER_FIELD_REPLY_SERIAL, seq!['u'], Val::Uint32(reply_serial)),
            header_val(HEADER_FIELD_ERROR_NAME, seq!['s'], Val::Str(error_name@)),
        ],
{
    let r = new_message(MESSAGE_TYPE_ERROR).add_header(
        HEADER_FIELD_REPLY_SERIAL,
        u32_variant(reply_serial),
    ).add_header(HEADER_FIELD_ERROR_NAME, str_variant(error_name));
    assert(headers_view(r.headers@) =~= seq![
        header_val(HEADER_FIELD_REPLY_SERIAL, seq!['u'], Val::Uint32(reply_serial)),
        header_val(HEADER_FIELD_ERROR_NAME, seq!['s'], Val::Str(error_name@)),
    ]);
    r
}

/// Creates a signal.
pub fn create_signal(path: &str, interface: &str, member: &str) -> (r: Message)
    ensures
        is_fresh(r, MESSAGE_TYPE_SIGNAL),
        headers_view(r.headers@) == seq![
            header_val(HEADER_FIELD_PATH, seq!['o'], Val::ObjectPath(path@)),
            header_val(HEADER_FIELD_INTERFACE, seq!['s'], Val::Str(interface@)),
            header_val(HEADER_FIELD_MEMBER, seq!['s'], Val::Str(member@)),
        ],
{
    let r = new_message(MESSAGE_TYPE_SIGNAL).add_header(HEADER_FIELD_PATH, path_variant(path)).add_header(
        HEADER_FIELD_INTERFACE,
        str_variant(interface),
    ).add_header(HEADER_FIELD_MEMBER, str_variant(member));
    assert(headers_view(r.headers@) =~= seq![
        header_val(HEADER_FIELD_PATH, seq!['o'], Val::ObjectPath(path@)),
        header_val(HEADER_FIELD_INTERFACE, seq!['s'], Val::Str(interface@)),
        header_val(HEADER_FIELD_MEMBER, seq!['s'], Val::Str(member@)),
    ]);
    r
}

/// The bytes of a message's header: the fixed part (always little-endian, so
/// the first byte is `l` whatever `big_endian` says of a received message),
/// the header-field array at offset 12, and padding to a multiple of 8.
pub open spec fn header_bytes(m: Message) -> Seq<u8> {
    let fields = enc(m.headers.model(), 12);
    seq![
        'l' as u8,
        m.message_type.0,
        m.flags,
        m.version,
    ] + le(m.body@.len() as int, 4) + le(m.serial as int, 4) + fields + zeros(
        pad_len(12 + fields.len() as int, 8),
    )
}

impl Message {
    /// Whether the `Signature` header, where there is one, holds a signature.
    pub open spec fn sig_header_ok(&self) -> bool {
        let i = header_index(self.headers@, HEADER_FIELD_SIGNATURE);
        i >= 0 ==> (*self.headers@[i].1.object)@ is Sig
    }

    /// Appends `arg` to the body and its signature to the `Signature` header,
    /// which is created empty on first use.
    pub fn add_arg<T: Marshal>(self, arg: &T) -> (r: Message)
        requires
            self.sig_header_ok(),
        ensures
            ({
                let i = header_index(self.headers@, HEADER_FIELD_SIGNATURE);
                let sv = header_val(HEADER_FIELD_SIGNATURE, seq!['g'], Val::Sig(
                    if i >= 0 { (*self.headers@[i].1.object)@->Sig_0 } else { Seq::empty() } + sig_of(arg.model()),
                ));
                headers_view(r.headers@) == if i >= 0 {
                    headers_view(self.headers@).update(i, sv)
                } else {
                    headers_view(self.headers@).push(sv)
                }
            }),
            r.body@ == self.body@ + enc(arg.model(), self.body@.len() as int),
            r.big_endian == self.big_endian,
            r.message_type == self.message_type,
            r.flags == self.flags,
            r.version == self.version,
            r.serial == self.serial,
            r.sig_header_ok(),
    {
        let mut m = self;
        let t = arg.get_type();
        match m.find_header(HEADER_FIELD_SIGNATURE) {
            Some(i) => {
                let old_sig = match &*m.headers[i].1.object {
                    Value::BasicValue(BasicValue::Signature(g)) => g.0.clone(),
                    _ => String::new(),
                };
                let new_sig = old_sig.concat(t.as_str());
                m.headers.set(i, HeaderField(HEADER_FIELD_SIGNATURE, sig_variant(new_sig)));
            },
            None => {
                m.headers.push(HeaderField(HEADER_FIELD_SIGNATURE, sig_variant(t)));
            },
        }
        arg.dbus_encode(&mut m.body);
        proof {
            let i = header_index(self.headers@, HEADER_FIELD_SIGNATURE);
            lemma_header_index_from(self.headers@, HEADER_FIELD_SIGNATURE, 0);
            lemma_header_index_from(m.headers@, HEADER_FIELD_SIGNATURE, 0);
            let sv = header_val(HEADER_FIELD_SIGNATURE, seq!['g'], Val::Sig(
                if i >= 0 { (*self.headers@[i].1.object)@->Sig_0 } else { Seq::empty() } + sig_of(arg.model()),
            ));
            let k = header_index(m.headers@, HEADER_FIELD_SIGNATURE);
            if i >= 0 {
                assert(headers_view(m.headers@) =~= headers_view(self.headers@).update(i, sv));
                assert(m.headers@[i].0 == HEADER_FIELD_SIGNATURE);
                if k >= 0 && k < i {
                    assert(m.headers@[k] == self.headers@[k]);
                }
                assert(k == i);
            } else {
                assert(headers_view(m.headers@) =~= headers_view(self.headers@).push(sv));
                let n = self.headers@.len() as int;
                assert(m.headers@[n].0 == HEADER_FIELD_SIGNATURE);
                if k >= 0 && k < n {
                    assert(m.headers@[k] == self.headers@[k]);
                }
                assert(k == n);
            }
        }
        m
    }

    /// The index of the first header with code `name`.
    pub fn find_header(&self, name: u8) -> (r: Option<usize>)
        ensures
            match r {
                Some(i) => header_index(self.headers@, name) == i,
                None => header_index(self.headers@, name) == -1,
            },
            r matches Some(i) ==> i < self.headers@.len(),
    {
        let mut i: usize = 0;
        while i < self.headers.len()
            invariant
                i <= self.headers@.len(),
                header_index(self.headers@, name) == header_index_from(self.headers@, name, i as int),
            decreases self.headers@.len() - i,
        {
            if self.headers[i].0 == name {
                return Some(i);
            }
            i += 1;
        }
        None
    }

    /// The value of the first header with code `name`.
    pub fn get_header(&self, name: u8) -> (r: Option<&Variant>)
        ensures
            match r {
                Some(v) => header_index(self.headers@, name) >= 0 && *v == self.headers@[header_index(
                    self.headers@,
                    name,
                )].1,
                None => header_index(self.headers@, name) == -1,
            },
    {
        match self.find_header(name) {
            Some(i) => Some(&self.headers[i].1),
            None => None,
        }
    }

    /// Appends a header field.
    pub fn add_header(self, name: u8, val: Variant) -> (r: Message)
        ensures
            r.headers@ == self.headers@.push(HeaderField(name, val)),
            r.body == self.body,
            r.big_endian == self.big_endian,
            r.message_type == self.message_type,
            r.flags == self.flags,
            r.version == self.version,
            r.serial == self.serial,
    {
        let mut m = self;
        m.headers.push(HeaderField(name, val));
        m
    }

    /// Decodes the body as the values that the `Signature` header lists.
    /// `None` when the body is empty or there is no such header.
    pub fn get_body(&self) -> (r: Result<Option<Vec<Value>>, DemarshalError>)
        ensures
            match body_sig(*self) {
                Some(s) if self.body@.len() > 0 => match dec(
                    self.body@,
                    0,
                    0,
                    seq!['('] + s + seq![')'],
                    0,
                ) {
                    Ok((Val::Struct(_, fs), _, _)) => r matches Ok(Some(vs)) && views(vs@, vs@.len()) == fs,
                    Ok(_) => r == Err::<Option<Vec<Value>>, DemarshalError>(DemarshalError::CorruptedMessage),
                    Err(e) => r matches Err(e2) && e2 == e,
                },
                _ => r matches Ok(None),
            },
            (r is Ok) == body_decodes(*self),
            r matches Ok(Some(vs)) ==> body_vals(*self) == Some(views(vs@, vs@.len())),
            r matches Ok(None) ==> body_vals(*self) is None,
    {
        if self.body.len() == 0 {
            return Ok(None);
        }
        let i = match self.find_header(HEADER_FIELD_SIGNATURE) {
            Some(i) => i,
            None => return Ok(None),
        };
        let s = match &*self.headers[i].1.object {
            Value::BasicValue(BasicValue::Signature(g)) => &g.0,
            _ => return Ok(None),
        };
        proof {
            reveal_strlit("(");
            reveal_strlit(")");
        }
        let sig = "(".to_owned().concat(s.as_str()).concat(")");
        assert(sig@ =~= seq!['('] + s@ + seq![')']);
        match dm(self.body.as_slice(), 0, 0, sig.as_str(), 0) {
            Ok((Value::Struct(st), _, _)) => {
                Ok(Some(st.objects))
            },
            Ok(_) => Err(DemarshalError::CorruptedMessage),
            Err(e) => Err(e),
        }
    }

    /// Encodes the header (not the body) into the empty buffer `buf`; returns
    /// the number of bytes written.
    pub fn dbus_encode(&self, buf: &mut Vec<u8>) -> (r: usize)
        requires
            old(buf)@.len() == 0,
            self.body@.len() <= u32::MAX,
        ensures
            final(buf)@ == header_bytes(*self),
            r == final(buf)@.len(),
    {
        buf.push('l' as u8);
        buf.push(self.message_type.0);
        buf.push(self.flags);
        buf.push(self.version);
        let ghost b4 = buf@;
        let len = self.body.len() as u32;
        assert(len as int == self.body@.len());
        len.dbus_encode(buf);
        assert(enc(Val::Uint32(len), 4) =~= le(len as int, 4));
        let ghost b8 = buf@;
        self.serial.dbus_encode(buf);
        assert(enc(Val::Uint32(self.serial), 8) =~= le(self.serial as int, 4));
        let ghost b12 = buf@;
        proof {
            crate::marshal::lemma_le_len(len as int, 4);
            crate::marshal::lemma_le_len(self.serial as int, 4);
        }
        assert(b12.len() == 12);
        self.headers.dbus_encode(buf);
        let ghost fields = enc(self.headers.model(), 12);
        let ghost b16 = buf@;
        assert(b16 =~= b12 + fields);
        pad_to_multiple(buf, 8);
        assert(buf@ =~= header_bytes(*self));
        buf.len()
    }
}


/// Whether the body decodes by the `Signature` header (an absent header or an
/// empty body decodes to nothing).
pub open spec fn body_decodes(m: Message) -> bool {
    match body_sig(m) {
        Some(s) => m.body@.len() == 0 || dec(m.body@, 0, 0, seq!['('] + s + seq![')'], 0) matches Ok(
            (Val::Struct(_, _), _, _),
        ),
        None => true,
    }
}

/// The values of the body, when there is a body and it decodes.
pub open spec fn body_vals(m: Message) -> Option<Seq<Val>> {
    match body_sig(m) {
        Some(s) => if m.body@.len() == 0 {
            None
        } else {
            match dec(m.body@, 0, 0, seq!['('] + s + seq![')'], 0) {
                Ok((Val::Struct(_, fs), _, _)) => Some(fs),
                _ => None,
            }
        },
        None => None,
    }
}

/// The text a header value reads as: a string, object path or signature.
pub open spec fn text_of(v: Val) -> Option<Seq<char>> {
    match v {
        Val::Str(s) => Some(s),
        Val::ObjectPath(s) => Some(s),
        Val::Sig(s) => Some(s),
        _ => None,
    }
}

/// The text of the first header with code `code`, if it holds text.
pub open spec fn header_text(m: Message, code: u8) -> Option<Seq<char>> {
    let i = header_index(m.headers@, code);
    if i < 0 {
        None
    } else {
        text_of((*m.headers@[i].1.object)@)
    }
}

/// The number in the first header with code `code`, if it holds a `u32`.
pub open spec fn header_u32(m: Message, code: u8) -> Option<u32> {
    let i = header_index(m.headers@, code);
    if i < 0 {
        None
    } else {
        match (*m.headers@[i].1.object)@ {
            Val::Uint32(x) => Some(x),
            _ => None,
        }
    }
}

impl Message {
    /// The text of the first header with code `code`, if it holds a string,
    /// object path or signature.
    pub fn decode_header_string(&self, code: u8) -> (r: Option<String>)
        ensures
            match header_text(*self, code) {
                Some(t) => r matches Some(s) && s@ == t,
                None => r is None,
            },
    {
        match self.find_header(code) {
            Some(i) => match &*self.headers[i].1.object {
                Value::BasicValue(BasicValue::String(x)) => Some(x.clone()),
                Value::BasicValue(BasicValue::ObjectPath(x)) => Some(x.0.clone()),
                Value::BasicValue(BasicValue::Signature(x)) => Some(x.0.clone()),
                _ => None,
            },
            None => None,
        }
    }

    /// The number in the first header with code `code`, if it holds a `u32`.
    pub fn decode_header_u32(&self, code: u8) -> (r: Option<u32>)
        ensures
            r == header_u32(*self, code),
    {
        match self.find_header(code) {
            Some(i) => match &*self.headers[i].1.object {
                Value::BasicValue(BasicValue::Uint32(x)) => Some(*x),
                _ => None,
            },
            None => None,
        }
    }
}

} // verus!
