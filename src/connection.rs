//! The decisions of a connection: serial numbers, the receive queue, reply
//! correlation, reading the parts of an incoming message, and the SASL
//! handshake. The socket itself is driven by the caller, who performs each
//! action and hands back what the peer sent.
use vstd::prelude::*;
use vstd::string::*;
use vstd::utf8::{encode_utf8, decode_utf8, valid_utf8};
use std::collections::VecDeque;
use rand::Rng;
use crypto::digest::Digest;
use crate::address::{split, split_char, strs_view, ServerAddressError};
use crate::demarshal::{dec, dm, from_le, string_from_utf8, DemarshalError};
use crate::hex::{from_hex, hex_decode, hex_encode, to_hex};
use crate::marshal::pad_len;
use crate::message::{
    header_bytes, header_index, headers_view, HeaderField, Message, MessageType,
    HEADER_FIELD_REPLY_SERIAL,
};
use crate::value::{views, lemma_views, BasicValue, Val, Value};

verus! {

#[verifier::external_type_specification]
#[verifier::external_body]
pub struct ExIoError(std::io::Error);

/// What can go wrong on a connection.
#[derive(Debug)]
pub enum Error {
    Disconnected,
    IOError(std::io::Error),
    DemarshalError(DemarshalError),
    AddressError(ServerAddressError),
    BadData,
    AuthFailed,
    NoEnvironment,
}

/// The serial counter and the receive queue of a connection.
pub struct ConnectionState {
    serial: u32,
    queue: VecDeque<Message>,
}

impl ConnectionState {
    /// The serial that the next message sent will carry.
    pub closed spec fn next(&self) -> u32 {
        self.serial
    }

    /// Messages read but not yet handed out, oldest first.
    pub closed spec fn queued(&self) -> Seq<Message> {
        self.queue@
    }

    pub open spec fn wf(&self) -> bool {
        self.next() != 0
    }

    pub fn new() -> (r: ConnectionState)
        ensures
            r.wf(),
            r.next() == 1,
            r.queued().len() == 0,
    {
        ConnectionState { serial: 1, queue: VecDeque::new() }
    }

    /// Hands out the next serial; the counter wraps back to 1 after `u32::MAX`.
    pub fn next_serial(&mut self) -> (r: u32)
        requires
            old(self).wf(),
        ensures
            final(self).wf(),
            r == old(self).next(),
            final(self).next() == if r == u32::MAX { 1 } else { (r + 1) as u32 },
            final(self).queued() == old(self).queued(),
    {
        let current = self.serial;
        self.serial = if current == u32::MAX { 1 } else { current + 1 };
        current
    }

    /// Stamps `msg` with the next serial and returns the bytes to send (header
    /// then body) with that serial.
    pub fn frame(&mut self, msg: Message) -> (r: (Vec<u8>, u32))
        requires
            old(self).wf(),
            msg.body@.len() <= u32::MAX,
        ensures
            final(self).wf(),
            r.1 == old(self).next(),
            final(self).next() == if r.1 == u32::MAX { 1 } else { (r.1 + 1) as u32 },
            final(self).queued() == old(self).queued(),
            r.0@ == header_bytes(Message { serial: r.1, ..msg }) + msg.body@,
    {
        let serial = self.next_serial();
        let mut m = msg;
        m.serial = serial;
        let mut bytes: Vec<u8> = Vec::new();
        m.dbus_encode(&mut bytes);
        let mut i: usize = 0;
        let ghost head = bytes@;
        while i < m.body.len()
            invariant
                i <= m.body@.len(),
                bytes@ == head + m.body@.subrange(0, i as int),
            decreases m.body@.len() - i,
        {
            bytes.push(m.body[i]);
            i += 1;
            assert(bytes@ =~= head + m.body@.subrange(0, i as int));
        }
        assert(m.body@.subrange(0, i as int) =~= m.body@);
        (bytes, serial)
    }

    /// Puts messages back at the front of the queue, in their order.
    pub fn push_queue(&mut self, held: VecDeque<Message>)
        ensures
            final(self).queued() == held@ + old(self).queued(),
            final(self).next() == old(self).next(),
    {
        let mut held = held;
        held.append(&mut self.queue);
        self.queue = held;
    }

    /// The oldest queued message, if any.
    pub fn pop_message(&mut self) -> (r: Option<Message>)
        ensures
            final(self).next() == old(self).next(),
            old(self).queued().len() == 0 ==> r is None && final(self).queued() == old(self).queued(),
            old(self).queued().len() > 0 ==> r == Some(old(self).queued()[0]) && final(self).queued() == old(self).queued().subrange(1, old(self).queued().len() as int),
    {
        self.queue.pop_front()
    }
}

/// The serial a message replies to: its first `ReplySerial` header, when that
/// holds a `u32`.
pub open spec fn reply_serial_of(m: Message) -> Option<u32> {
    let i = header_index(m.headers@, HEADER_FIELD_REPLY_SERIAL);
    if i < 0 {
        None
    } else {
        match (*m.headers@[i].1.object)@ {
            Val::Uint32(x) => Some(x),
            _ => None,
        }
    }
}

/// The serial `m` replies to, if any.
pub fn reply_serial(m: &Message) -> (r: Option<u32>)
    ensures
        r == reply_serial_of(*m),
{
    match m.find_header(HEADER_FIELD_REPLY_SERIAL) {
        Some(i) => match &*m.headers[i].1.object {
            Value::BasicValue(BasicValue::Uint32(x)) => Some(*x),
            _ => None,
        },
        None => None,
    }
}

/// Waiting for the reply to the call with a given serial: messages read in
/// the meantime are held, in arrival order.
pub struct ReplyWait {
    serial: u32,
    held: VecDeque<Message>,
}

impl ReplyWait {
    pub closed spec fn awaited(&self) -> u32 {
        self.serial
    }

    pub closed spec fn held_msgs(&self) -> Seq<Message> {
        self.held@
    }

    pub fn new(serial: u32) -> (r: ReplyWait)
        ensures
            r.awaited() == serial,
            r.held_msgs().len() == 0,
    {
        ReplyWait { serial, held: VecDeque::new() }
    }

    /// Takes a message read while waiting: the awaited reply is handed back,
    /// anything else is held.
    pub fn offer(&mut self, m: Message) -> (r: Option<Message>)
        ensures
            final(self).awaited() == old(self).awaited(),
            reply_serial_of(m) == Some(old(self).awaited()) ==> r == Some(m) && final(self).held_msgs() == old(self).held_msgs(),
            reply_serial_of(m) != Some(old(self).awaited()) ==> r is None && final(self).held_msgs() == old(self).held_msgs().push(m),
    {
        let rs = reply_serial(&m);
        if rs == Some(self.serial) {
            Some(m)
        } else {
            self.held.push_back(m);
            None
        }
    }

    /// Ends the wait: the held messages go back to the front of the queue, in
    /// arrival order, ahead of those that were queued before.
    pub fn finish(self, state: &mut ConnectionState)
        ensures
            final(state).queued() == self.held_msgs() + old(state).queued(),
            final(state).next() == old(state).next(),
    {
        state.push_queue(self.held);
    }
}

/// The fixed part of a message header, from its first 12 bytes: the message
/// (no headers, empty body) and the body length.
pub fn parse_fixed_header(b: &[u8]) -> (r: Result<(Message, u32), DemarshalError>)
    ensures
        b@.len() < 12 ==> (r matches Err(e) && e == DemarshalError::MessageTooShort),
        b@.len() >= 12 ==> (r matches Ok((m, len)) && m.big_endian == (b@[0] == 66)
            && m.message_type == MessageType(b@[1]) && m.flags == b@[2] && m.version == b@[3]
            && len as nat == from_le(b@.subrange(4, 8)) && m.serial as nat == from_le(
            b@.subrange(8, 12),
        ) && m.headers@.len() == 0 && m.body@.len() == 0),
{
    if b.len() < 12 {
        return Err(DemarshalError::MessageTooShort);
    }
    let len = read_u32(b, 4);
    let serial = read_u32(b, 8);
    let m = Message {
        big_endian: b[0] == 66,
        message_type: MessageType(b[1]),
        flags: b[2],
        version: b[3],
        serial,
        headers: Vec::new(),
        body: Vec::new(),
    };
    Ok((m, len))
}

/// The little-endian `u32` at `b[pos..pos + 4]`.
fn read_u32(b: &[u8], pos: usize) -> (r: u32)
    requires
        pos + 4 <= b@.len(),
    ensures
        r as nat == from_le(b@.subrange(pos as int, pos + 4)),
{
    let x0 = b[pos] as u32;
    let x1 = b[pos + 1] as u32;
    let x2 = b[pos + 2] as u32;
    let x3 = b[pos + 3] as u32;
    proof {
        let s = b@.subrange(pos as int, pos + 4);
        reveal_with_fuel(from_le, 5);
        assert(s.subrange(1, 4) =~= b@.subrange(pos + 1, pos + 4));
        assert(s.subrange(1, 4).subrange(1, 3) =~= b@.subrange(pos + 2, pos + 4));
        assert(s.subrange(1, 4).subrange(1, 3).subrange(1, 2) =~= b@.subrange(pos + 3, pos + 4));
        assert(s.subrange(1, 4).subrange(1, 3).subrange(1, 2).subrange(1, 1) =~= Seq::<u8>::empty());
    }
    x0 + 256 * (x1 + 256 * (x2 + 256 * x3))
}

/// The byte count of the header-field array, from the 4 bytes that follow the
/// fixed header.
pub fn header_fields_len(b: &[u8]) -> (r: Result<u32, DemarshalError>)
    ensures
        b@.len() < 4 ==> (r matches Err(e) && e == DemarshalError::MessageTooShort),
        b@.len() >= 4 ==> (r matches Ok(x) && x as nat == from_le(b@.subrange(0, 4))),
{
    if b.len() < 4 {
        return Err(DemarshalError::MessageTooShort);
    }
    Ok(read_u32(b, 0))
}

/// Whether `v` has the shape of a header field: a `(yv)` struct of a byte and
/// a variant.
pub open spec fn is_header_val(v: Val) -> bool {
    match v {
        Val::Struct(sig, fs) => sig == seq!['(', 'y', 'v', ')'] && fs.len() == 2 && fs[0] is Byte
            && fs[1] is Variant,
        _ => false,
    }
}

/// The signature of the header-field array.
pub open spec fn header_array_sig() -> Seq<char> {
    seq!['a', '(', 'y', 'v', ')']
}

/// Decodes the header-field array from its bytes (its 4-byte length and what
/// follows), which start at offset 12 of the message. Returns the fields and
/// the offset just after them.
pub fn parse_header_fields(b: &[u8]) -> (r: Result<(Vec<HeaderField>, usize), DemarshalError>)
    requires
        b@.len() + 12 <= usize::MAX,
    ensures
        match dec(b@, 12, 0, header_array_sig(), 0) {
            Ok((Val::Array(_, elems), p, _)) => if forall|i: int|
                0 <= i < elems.len() ==> #[trigger] is_header_val(elems[i]) {
                r matches Ok((hs, off)) && headers_view(hs@) == elems && off == 12 + p
            } else {
                r matches Err(e) && e == DemarshalError::CorruptedMessage
            },
            Ok(_) => r matches Err(e) && e == DemarshalError::CorruptedMessage,
            Err(e) => r matches Err(e2) && e2 == e,
        },
{
    proof {
        reveal_strlit("a(yv)");
        reveal_strlit("(yv)");
    }
    let sig = "a(yv)".to_owned();
    assert(sig@ =~= header_array_sig());
    let (v, p, q) = match dm(b, 12, 0, sig.as_str(), 0) {
        Ok((v, p, q)) => (v, p, q),
        Err(e) => return Err(e),
    };
    let ghost d = dec(b@, 12, 0, header_array_sig(), 0);
    let (mut objs, asig) = match v {
        Value::Array(a) => (a.objects, a.signature),
        _ => return Err(DemarshalError::CorruptedMessage),
    };
    let ghost orig = objs@;
    let ghost elems = views(orig, orig.len());
    proof {
        lemma_views(orig, orig.len());
    }
    let n = objs.len();
    let mut hs: Vec<HeaderField> = Vec::new();
    let mut k: usize = 0;
    while k < n
        invariant
            d == dec(b@, 12, 0, header_array_sig(), 0),
            d == Ok::<(Val, int, int), DemarshalError>((Val::Array(asig.0@, elems), p as int, q as int)),
            n == orig.len(),
            elems == views(orig, orig.len()),
            elems.len() == n,
            forall|j: int| 0 <= j < n ==> #[trigger] elems[j] == orig[j]@,
            k <= n,
            objs@ == orig.subrange(k as int, n as int),
            hs@.len() == k,
            forall|j: int| 0 <= j < k ==> #[trigger] hs@[j].view() == elems[j],
            forall|j: int| 0 <= j < k ==> is_header_val(#[trigger] elems[j]),
        decreases n - k,
    {
        let x = objs.remove(0);
        assert(x == orig[k as int]);
        assert(dec(b@, 12, 0, header_array_sig(), 0) matches Ok((Val::Array(_, e2), _, _)) && e2
            == elems);
        let mut st = match x {
            Value::Struct(st) => st,
            _ => {
                assert(!is_header_val(elems[k as int]));
                assert(!(forall|i: int| 0 <= i < elems.len() ==> #[trigger] is_header_val(elems[i])));
                let r: Result<(Vec<HeaderField>, usize), DemarshalError> = Err(
                    DemarshalError::CorruptedMessage,
                );
                return r;
            },
        };
        proof {
            lemma_views(st.objects@, st.objects@.len());
            reveal_strlit("(yv)");
        }
        let ghost fs = views(st.objects@, st.objects@.len());
        let ghost sg = st.signature.0@;
        assert(elems[k as int] == Val::Struct(sg, fs));
        if !(st.signature.0 == "(yv)".to_owned()) || st.objects.len() != 2 {
            proof {
                if sg == seq!['(', 'y', 'v', ')'] {
                    assert(sg =~= "(yv)"@);
                }
            }
            assert(!is_header_val(elems[k as int]));
            assert(!(forall|i: int| 0 <= i < elems.len() ==> #[trigger] is_header_val(elems[i])));
            let r: Result<(Vec<HeaderField>, usize), DemarshalError> = Err(
                DemarshalError::CorruptedMessage,
            );
            return r;
        }
        assert(sg =~= seq!['(', 'y', 'v', ')']);
        let var = st.objects.remove(1);
        let code = st.objects.remove(0);
        assert(fs[0] == code@ && fs[1] == var@);
        match (code, var) {
            (Value::BasicValue(BasicValue::Byte(c)), Value::Variant(vr)) => {
                let h = HeaderField(c, vr);
                assert(fs =~= seq![Val::Byte(c), Val::Variant(vr.signature.0@, Box::new((*vr.object)@))]);
                assert(h.view() == elems[k as int]);
                hs.push(h);
            },
            _ => {
                assert(!is_header_val(elems[k as int]));
                assert(!(forall|i: int| 0 <= i < elems.len() ==> #[trigger] is_header_val(elems[i])));
                let r: Result<(Vec<HeaderField>, usize), DemarshalError> = Err(
                    DemarshalError::CorruptedMessage,
                );
                return r;
            },
        }
        k += 1;
    }
    assert(headers_view(hs@) =~= elems);
    Ok((hs, p + 12))
}

/// The padding that follows header fields ending at `offset`.
pub fn header_padding(offset: usize) -> (r: usize)
    ensures
        r == pad_len(offset as int, 8),
{
    (8 - offset % 8) % 8
}


/// The ASCII decimal digits of `n`.
pub open spec fn decimal(n: nat) -> Seq<u8>
    decreases n,
{
    if n < 10 {
        seq![(48 + n) as u8]
    } else {
        decimal(n / 10) + seq![(48 + n % 10) as u8]
    }
}

/// The ASCII decimal digits of `n`.
pub fn decimal_bytes(n: u32) -> (r: Vec<u8>)
    ensures
        r@ == decimal(n as nat),
{
    let mut v: Vec<u8> = Vec::new();
    let mut cur: u32 = n;
    loop
        invariant
            decimal(n as nat) == decimal(cur as nat) + v@,
        decreases cur,
    {
        let d = (48 + cur % 10) as u8;
        let ghost before = v@;
        v.insert(0, d);
        if cur < 10 {
            assert(v@ =~= decimal(cur as nat) + before);
            return v;
        }
        assert(decimal(cur as nat) == decimal((cur / 10) as nat) + seq![d]);
        assert(decimal(cur as nat) + before =~= decimal((cur / 10) as nat) + v@);
        cur = cur / 10;
    }
}

/// Whether `p` is a prefix of `s`.
pub open spec fn is_prefix(p: Seq<char>, s: Seq<char>) -> bool {
    p.len() <= s.len() && s.subrange(0, p.len() as int) == p
}

/// Whether `s` starts with `p`.
pub fn starts_with(s: &str, p: &str) -> (r: bool)
    ensures
        r == is_prefix(p@, s@),
{
    let n = p.unicode_len();
    if n > s.unicode_len() {
        return false;
    }
    let mut i: usize = 0;
    while i < n
        invariant
            n == p@.len() <= s@.len(),
            i <= n,
            s@.subrange(0, i as int) == p.view().subrange(0, i as int),
        decreases n - i,
    {
        if s.get_char(i) != p.get_char(i) {
            assert(s@.subrange(0, n as int)[i as int] != p@[i as int]);
            return false;
        }
        i += 1;
        assert(s@.subrange(0, i as int) =~= p@.subrange(0, i as int));
    }
    assert(p@.subrange(0, n as int) =~= p@);
    true
}

/// A server reply that accepts the attempt.
pub open spec fn is_ok_line(line: Seq<char>) -> bool {
    is_prefix(seq!['O', 'K', ' '], line)
}

/// `AUTH <mech> <uid as hex-encoded decimal text>` and CRLF.
pub open spec fn auth_line(mech: Seq<char>, uid: u32) -> Seq<char> {
    seq!['A', 'U', 'T', 'H', ' '] + mech + seq![' '] + hex_encode(decimal(uid as nat)) + seq![
        '\r',
        '\n',
    ]
}

pub open spec fn external_mech() -> Seq<char> {
    seq!['E', 'X', 'T', 'E', 'R', 'N', 'A', 'L']
}

pub open spec fn cookie_mech() -> Seq<char> {
    "DBUS_COOKIE_SHA1"@
}

/// The line that starts an `ANONYMOUS` attempt, with its fixed trace text.
pub open spec fn anonymous_line() -> Seq<char> {
    "AUTH ANONYMOUS 6c69626462757320312e382e3132\r\n"@
}

/// The line that ends the handshake.
pub open spec fn begin_line() -> Seq<char> {
    "BEGIN\r\n"@
}

/// The context, cookie id and server challenge of a `DATA <hex>` line.
pub open spec fn data_challenge(line: Seq<char>) -> Option<(Seq<char>, Seq<char>, Seq<char>)> {
    let w = split(line, ' ');
    if w.len() != 2 || w[0] != "DATA"@ {
        None
    } else {
        match hex_decode(w[1]) {
            Some(b) => if !valid_utf8(b) {
                None
            } else {
                let t = split(decode_utf8(b), ' ');
                if t.len() == 3 {
                    Some((t[0], t[1], t[2]))
                } else {
                    None
                }
            },
            None => None,
        }
    }
}

/// The cookie on the first of `lines[i..]` that starts with `id`, when that
/// line has exactly three space-separated fields.
pub open spec fn cookie_from(lines: Seq<Seq<char>>, i: int, id: Seq<char>) -> Option<Seq<char>>
    decreases lines.len() - i,
{
    if i < 0 || i >= lines.len() {
        None
    } else if is_prefix(id, lines[i]) {
        let w = split(lines[i], ' ');
        if w.len() == 3 {
            Some(w[2])
        } else {
            None
        }
    } else {
        cookie_from(lines, i + 1, id)
    }
}

/// The text that is hashed in a cookie reply.
pub open spec fn cookie_input(challenge: Seq<char>, client: Seq<u8>, cookie: Seq<char>) -> Seq<char> {
    challenge + seq![':'] + hex_encode(client) + seq![':'] + cookie
}

/// The `DATA` line that answers a cookie challenge, given the client challenge
/// and the hex digest.
pub open spec fn cookie_reply(client: Seq<u8>, digest: Seq<char>) -> Seq<char> {
    "DATA "@ + hex_encode(encode_utf8(hex_encode(client) + seq![' '] + digest)) + seq!['\r', '\n']
}

/// What SHA-1 gives for the UTF-8 bytes of a text, as lowercase hex.
pub uninterp spec fn sha1_hex(s: Seq<char>) -> Seq<char>;

/// Relies on rust-crypto's `Sha1`: `input_str` then `result_str` gives the
/// digest of the text's UTF-8 bytes as 40 lowercase hex digits.
#[verifier::external_body]
fn sha1_hex_of(s: &str) -> (r: String)
    ensures
        r@ == sha1_hex(s@),
        r@.len() == 40,
{
    let mut h = crypto::sha1::Sha1::new();
    h.input_str(s);
    h.result_str()
}

/// Relies on rand's `thread_rng` and `Rng::fill`: sixteen random bytes.
#[verifier::external_body]
fn client_challenge() -> (r: Vec<u8>)
    ensures
        r@.len() == 16,
{
    let mut b = [0u8; 16];
    rand::thread_rng().fill(&mut b[..]);
    b.to_vec()
}

/// Whether the server accepted the attempt.
pub fn is_ok(line: &str) -> (r: bool)
    ensures
        r == is_ok_line(line@),
{
    proof {
        reveal_strlit("OK ");
    }
    let ok = starts_with(line, "OK ");
    assert("OK "@ =~= seq!['O', 'K', ' ']);
    ok
}

fn auth_line_for(mech: &str, uid: u32) -> (r: String)
    ensures
        r@ == auth_line(mech@, uid),
{
    proof {
        reveal_strlit("AUTH ");
        reveal_strlit(" ");
        reveal_strlit("\r\n");
    }
    let digits = decimal_bytes(uid);
    let hex = to_hex(digits.as_slice());
    let r = "AUTH ".to_owned().concat(mech).concat(" ").concat(hex.as_str()).concat("\r\n");
    assert(r@ =~= auth_line(mech@, uid));
    r
}

/// The context, cookie id and server challenge of a `DATA <hex>` line.
pub fn parse_data_line(line: &str) -> (r: Option<(String, String, String)>)
    ensures
        match data_challenge(line@) {
            Some((c, i, ch)) => r matches Some((c2, i2, ch2)) && c2@ == c && i2@ == i && ch2@ == ch,
            None => r is None,
        },
{
    let words = split_char(line, ' ');
    if words.len() != 2 || !(words[0] == "DATA".to_owned()) {
        return None;
    }
    let bytes = match from_hex(words[1].as_str()) {
        Some(b) => b,
        None => return None,
    };
    let text = match string_from_utf8(bytes) {
        Some(t) => t,
        None => return None,
    };
    let t = split_char(text.as_str(), ' ');
    if t.len() != 3 {
        return None;
    }
    Some((t[0].clone(), t[1].clone(), t[2].clone()))
}

/// The cookie with id `cookie_id` in the text of a keyring file: the third
/// field of the first line that starts with the id, when that line has
/// exactly three space-separated fields.
pub fn find_cookie(contents: &str, cookie_id: &str) -> (r: Option<String>)
    ensures
        match cookie_from(split(contents@, '\n'), 0, cookie_id@) {
            Some(c) => r matches Some(c2) && c2@ == c,
            None => r is None,
        },
{
    let lines = split_char(contents, '\n');
    let ghost ls = split(contents@, '\n');
    let mut i: usize = 0;
    while i < lines.len()
        invariant
            strs_view(lines@) == ls,
            ls == split(contents@, '\n'),
            i <= lines@.len(),
            cookie_from(ls, 0, cookie_id@) == cookie_from(ls, i as int, cookie_id@),
        decreases lines@.len() - i,
    {
        assert(ls[i as int] == lines@[i as int]@);
        if starts_with(lines[i].as_str(), cookie_id) {
            let words = split_char(lines[i].as_str(), ' ');
            if words.len() != 3 {
                return None;
            }
            return Some(words[2].clone());
        }
        i += 1;
    }
    None
}

/// The text hashed in a cookie reply: `<challenge>:<hex client challenge>:<cookie>`.
pub fn cookie_hash_input(challenge: &str, client: &[u8], cookie: &str) -> (r: String)
    ensures
        r@ == cookie_input(challenge@, client@, cookie@),
{
    proof {
        reveal_strlit(":");
    }
    let hex = to_hex(client);
    let r = challenge.to_owned().concat(":").concat(hex.as_str()).concat(":").concat(cookie);
    assert(r@ =~= cookie_input(challenge@, client@, cookie@));
    r
}

/// The `DATA` line that answers a cookie challenge, given the client
/// challenge and the hex SHA-1 digest of the hashed text.
pub fn cookie_data_line(client: &[u8], digest: &str) -> (r: String)
    ensures
        r@ == cookie_reply(client@, digest@),
{
    proof {
        reveal_strlit(" ");
        reveal_strlit("\r\n");
    }
    let hex = to_hex(client);
    let resp = hex.concat(" ").concat(digest);
    assert(resp@ =~= hex_encode(client@) + seq![' '] + digest@);
    let data = to_hex(resp.as_str().as_bytes());
    let r = "DATA ".to_owned().concat(data.as_str()).concat("\r\n");
    assert(r@ =~= cookie_reply(client@, digest@));
    r
}

/// The `DATA` line that answers the cookie challenge `challenge` with the
/// cookie `cookie` and the client challenge `client`.
pub fn cookie_response(challenge: &str, client: &[u8], cookie: &str) -> (r: String)
    ensures
        r@ == cookie_reply(client@, sha1_hex(cookie_input(challenge@, client@, cookie@))),
{
    let input = cookie_hash_input(challenge, client, cookie);
    let digest = sha1_hex_of(input.as_str());
    cookie_data_line(client, digest.as_str())
}

/// Where the handshake stands.
#[derive(Debug, Clone, Copy, PartialEq, Eq, Structural)]
pub enum AuthState {
    /// `AUTH EXTERNAL` sent, awaiting the reply.
    External,
    /// `AUTH DBUS_COOKIE_SHA1` sent, awaiting the challenge.
    CookieData,
    /// Challenge received, awaiting the cookie from the keyring.
    CookieFile,
    /// Cookie reply sent, awaiting the verdict.
    CookieReply,
    /// `AUTH ANONYMOUS` sent, awaiting the reply.
    Anonymous,
    /// Accepted.
    Done,
    /// Every mechanism was refused.
    Failed,
}

/// What the caller does next.
#[derive(Debug)]
pub enum AuthAction {
    /// Send this line and read the reply line.
    Send(String),
    /// Read the keyring file named by the context and look up the cookie id.
    ReadCookie(String, String),
    /// Send `BEGIN` and CRLF: the handshake is done.
    Begin,
    /// Authentication failed.
    Fail,
}

/// The SASL handshake: `EXTERNAL`, then `DBUS_COOKIE_SHA1`, then `ANONYMOUS`.
pub struct Authenticator {
    uid: u32,
    state: AuthState,
    challenge: String,
}

impl Authenticator {
    pub closed spec fn state_view(&self) -> AuthState {
        self.state
    }

    pub closed spec fn uid_view(&self) -> u32 {
        self.uid
    }

    /// The server challenge, once a `DATA` line has been read.
    pub closed spec fn challenge_view(&self) -> Seq<char> {
        self.challenge@
    }

    /// Starts with `EXTERNAL` for the user `uid`: the authenticator and the
    /// line to send.
    pub fn start(uid: u32) -> (r: (Authenticator, String))
        ensures
            r.0.state_view() == AuthState::External,
            r.0.uid_view() == uid,
            r.1@ == auth_line(external_mech(), uid),
    {
        proof {
            reveal_strlit("EXTERNAL");
        }
        let line = auth_line_for("EXTERNAL", uid);
        assert("EXTERNAL"@ =~= external_mech());
        (Authenticator { uid, state: AuthState::External, challenge: String::new() }, line)
    }

    pub fn state(&self) -> (r: AuthState)
        ensures
            r == self.state_view(),
    {
        self.state
    }

    fn to_cookie(&mut self) -> (r: AuthAction)
        ensures
            final(self).state_view() == AuthState::CookieData,
            final(self).uid_view() == old(self).uid_view(),
            r matches AuthAction::Send(t) && t@ == auth_line(cookie_mech(), old(self).uid_view()),
    {
        self.state = AuthState::CookieData;
        AuthAction::Send(auth_line_for("DBUS_COOKIE_SHA1", self.uid))
    }

    fn to_anonymous(&mut self) -> (r: AuthAction)
        ensures
            final(self).state_view() == AuthState::Anonymous,
            final(self).uid_view() == old(self).uid_view(),
            r matches AuthAction::Send(t) && t@ == anonymous_line(),
    {
        self.state = AuthState::Anonymous;
        AuthAction::Send("AUTH ANONYMOUS 6c69626462757320312e382e3132\r\n".to_owned())
    }

    fn to_done(&mut self) -> (r: AuthAction)
        ensures
            final(self).state_view() == AuthState::Done,
            final(self).uid_view() == old(self).uid_view(),
            r is Begin,
    {
        self.state = AuthState::Done;
        AuthAction::Begin
    }

    fn to_failed(&mut self) -> (r: AuthAction)
        ensures
            final(self).state_view() == AuthState::Failed,
            final(self).uid_view() == old(self).uid_view(),
            r is Fail,
    {
        self.state = AuthState::Failed;
        AuthAction::Fail
    }

    /// Takes the server's reply line.
    pub fn on_line(&mut self, line: &str) -> (r: AuthAction)
        ensures
            final(self).uid_view() == old(self).uid_view(),
            match old(self).state_view() {
                AuthState::External => if is_ok_line(line@) {
                    final(self).state_view() == AuthState::Done && r is Begin
                } else {
                    final(self).state_view() == AuthState::CookieData && (r matches AuthAction::Send(t)
                        && t@ == auth_line(cookie_mech(), old(self).uid_view()))
                },
                AuthState::CookieData => match data_challenge(line@) {
                    Some((c, i, ch)) => final(self).state_view() == AuthState::CookieFile
                        && final(self).challenge_view() == ch && (r matches AuthAction::ReadCookie(
                        c2,
                        i2,
                    ) && c2@ == c && i2@ == i),
                    None => final(self).state_view() == AuthState::Anonymous && (r matches AuthAction::Send(t)
                        && t@ == anonymous_line()),
                },
                AuthState::CookieReply => if is_ok_line(line@) {
                    final(self).state_view() == AuthState::Done && r is Begin
                } else {
                    final(self).state_view() == AuthState::Anonymous && (r matches AuthAction::Send(t)
                        && t@ == anonymous_line())
                },
                AuthState::Anonymous => if is_ok_line(line@) {
                    final(self).state_view() == AuthState::Done && r is Begin
                } else {
                    final(self).state_view() == AuthState::Failed && r is Fail
                },
                _ => final(self).state_view() == AuthState::Failed && r is Fail,
            },
    {
        match self.state {
            AuthState::External => if is_ok(line) {
                self.to_done()
            } else {
                self.to_cookie()
            },
            AuthState::CookieData => match parse_data_line(line) {
                Some((c, i, ch)) => {
                    self.state = AuthState::CookieFile;
                    self.challenge = ch;
                    AuthAction::ReadCookie(c, i)
                },
                None => self.to_anonymous(),
            },
            AuthState::CookieReply => if is_ok(line) {
                self.to_done()
            } else {
                self.to_anonymous()
            },
            AuthState::Anonymous => if is_ok(line) {
                self.to_done()
            } else {
                self.to_failed()
            },
            _ => self.to_failed(),
        }
    }

    /// The current attempt failed on the socket: moves on to the next mechanism.
    pub fn on_failure(&mut self) -> (r: AuthAction)
        ensures
            final(self).uid_view() == old(self).uid_view(),
            match old(self).state_view() {
                AuthState::External => final(self).state_view() == AuthState::CookieData
                    && (r matches AuthAction::Send(t) && t@ == auth_line(cookie_mech(), old(self).uid_view())),
                AuthState::CookieData | AuthState::CookieFile | AuthState::CookieReply => final(self).state_view() == AuthState::Anonymous && (r matches AuthAction::Send(t) && t@
                    == anonymous_line()),
                _ => final(self).state_view() == AuthState::Failed && r is Fail,
            },
    {
        match self.state {
            AuthState::External => self.to_cookie(),
            AuthState::CookieData | AuthState::CookieFile | AuthState::CookieReply => self.to_anonymous(),
            _ => self.to_failed(),
        }
    }

    /// Takes the cookie looked up in the keyring (`None` when there was none)
    /// and the client challenge.
    pub fn on_cookie_with(&mut self, cookie: Option<&str>, client: &[u8]) -> (r: AuthAction)
        ensures
            final(self).uid_view() == old(self).uid_view(),
            old(self).state_view() != AuthState::CookieFile ==> final(self).state_view()
                == AuthState::Failed && r is Fail,
            old(self).state_view() == AuthState::CookieFile ==> match cookie {
                Some(ck) => final(self).state_view() == AuthState::CookieReply && (r matches AuthAction::Send(t)
                    && t@ == cookie_reply(
                    client@,
                    sha1_hex(cookie_input(old(self).challenge_view(), client@, ck@)),
                )),
                None => final(self).state_view() == AuthState::Anonymous && (r matches AuthAction::Send(t)
                    && t@ == anonymous_line()),
            },
    {
        if self.state != AuthState::CookieFile {
            return self.to_failed();
        }
        match cookie {
            Some(ck) => {
                let line = cookie_response(self.challenge.as_str(), client, ck);
                self.state = AuthState::CookieReply;
                AuthAction::Send(line)
            },
            None => self.to_anonymous(),
        }
    }

    /// Takes the cookie looked up in the keyring, with a fresh random client
    /// challenge of sixteen bytes.
    pub fn on_cookie(&mut self, cookie: Option<&str>) -> (r: AuthAction)
        ensures
            final(self).uid_view() == old(self).uid_view(),
            old(self).state_view() != AuthState::CookieFile ==> final(self).state_view()
                == AuthState::Failed && r is Fail,
            old(self).state_view() == AuthState::CookieFile ==> match cookie {
                Some(ck) => final(self).state_view() == AuthState::CookieReply && (r matches AuthAction::Send(t)
                    && exists|c: Seq<u8>|
                    c.len() == 16 && t@ == cookie_reply(
                        c,
                        sha1_hex(cookie_input(old(self).challenge_view(), c, ck@)),
                    )),
                None => final(self).state_view() == AuthState::Anonymous && (r matches AuthAction::Send(t)
                    && t@ == anonymous_line()),
            },
    {
        let client = client_challenge();
        let r = self.on_cookie_with(cookie, client.as_slice());
        proof {
            if old(self).state_view() == AuthState::CookieFile && cookie is Some {
                let c = client@;
                assert(c.len() == 16);
            }
        }
        r
    }
}

} // verus!
