//! Marshalling: appending the wire encoding of a value to a buffer.
//!
//! The buffer is taken to start at the beginning of a message (its header or
//! its body), so every alignment is computed against the buffer's length.
use vstd::prelude::*;
use vstd::string::*;
use vstd::utf8::encode_utf8;
use crate::demarshal::get_alignment;
use crate::value::{Array, Dictionary, BasicValue, Path, Signature, Struct, Variant, Val, Value, views, entry_views, lemma_views, lemma_entry_views};

verus! {

/// The alignment of the type whose signature starts with `c`.
pub open spec fn align_of(c: char) -> int {
    if c == 'n' || c == 'q' {
        2
    } else if c == 'i' || c == 'u' || c == 's' || c == 'o' || c == 'a' {
        4
    } else if c == 'x' || c == 't' || c == 'd' || c == '(' || c == '{' {
        8
    } else {
        1
    }
}

/// The number of zero bytes that bring `off` to a multiple of `a`.
pub open spec fn pad_len(off: int, a: int) -> int {
    (a - off % a) % a
}

pub open spec fn zeros(n: int) -> Seq<u8> {
    Seq::new(n as nat, |i: int| 0u8)
}

/// The `n` low bytes of `x`, least significant first (two's complement for negative `x`).
pub open spec fn le(x: int, n: nat) -> Seq<u8>
    decreases n,
{
    if n == 0 {
        Seq::empty()
    } else {
        seq![(x % 256) as u8] + le(x / 256, (n - 1) as nat)
    }
}

/// A string on the wire: 4-byte byte count, UTF-8 bytes, NUL.
pub open spec fn str_payload(s: Seq<char>) -> Seq<u8> {
    le(encode_utf8(s).len() as int, 4) + encode_utf8(s) + seq![0u8]
}

/// A signature on the wire: 1-byte byte count, bytes, NUL.
pub open spec fn sig_payload(s: Seq<char>) -> Seq<u8> {
    le(encode_utf8(s).len() as int, 1) + encode_utf8(s) + seq![0u8]
}

/// The alignment of a value: that of the first character of its signature.
pub open spec fn val_align(v: Val) -> int {
    match v {
        Val::Byte(_) | Val::Sig(_) | Val::Variant(_, _) => 1,
        Val::Int16(_) | Val::Uint16(_) => 2,
        Val::Boolean(_) | Val::Int32(_) | Val::Uint32(_) | Val::Str(_) | Val::ObjectPath(_)
        | Val::Array(_, _) | Val::Dict(_, _) => 4,
        Val::Int64(_) | Val::Uint64(_) | Val::Double(_) | Val::Struct(_, _) => 8,
    }
}

/// The alignment of the elements of an array whose full signature is `sig`.
pub open spec fn elem_align(sig: Seq<char>) -> int {
    if sig.len() >= 2 {
        align_of(sig[1])
    } else {
        1
    }
}

/// The bytes that encoding `v` appends to a buffer of length `off`.
pub open spec fn enc(v: Val, off: int) -> Seq<u8>
    decreases v,
{
    let p = pad_len(off, val_align(v));
    let at = off + p;
    zeros(p) + match v {
        Val::Byte(b) => seq![b],
        Val::Boolean(b) => le(if b { 1 } else { 0 }, 4),
        Val::Int16(x) => le((x as u16) as int, 2),
        Val::Uint16(x) => le(x as int, 2),
        Val::Int32(x) => le((x as u32) as int, 4),
        Val::Uint32(x) => le(x as int, 4),
        Val::Int64(x) => le((x as u64) as int, 8),
        Val::Uint64(x) => le(x as int, 8),
        Val::Double(x) => le(x as int, 8),
        Val::Str(s) => str_payload(s),
        Val::ObjectPath(s) => str_payload(s),
        Val::Sig(s) => sig_payload(s),
        Val::Array(sig, elems) => {
            let q = pad_len(at + 4, elem_align(sig));
            let body = enc_seq(elems, at + 4 + q);
            le(body.len() as int, 4) + zeros(q) + body
        },
        Val::Dict(_, entries) => {
            let q = pad_len(at + 4, 8);
            let body = enc_entries(entries, at + 4 + q);
            le(body.len() as int, 4) + zeros(q) + body
        },
        Val::Struct(_, fields) => enc_seq(fields, at),
        Val::Variant(sig, inner) => sig_payload(sig) + enc(*inner, at + sig_payload(sig).len()),
    }
}

/// The encodings of `s`, one after another, starting at `off`.
pub open spec fn enc_seq(s: Seq<Val>, off: int) -> Seq<u8>
    decreases s,
{
    if s.len() == 0 {
        Seq::empty()
    } else {
        let e = enc(s[0], off);
        e + enc_seq(s.subrange(1, s.len() as int), off + e.len())
    }
}

/// The encodings of dictionary entries (each 8-aligned, key then value),
/// one after another, starting at `off`.
pub open spec fn enc_entries(s: Seq<(Val, Val)>, off: int) -> Seq<u8>
    decreases s,
{
    if s.len() == 0 {
        Seq::empty()
    } else {
        let p = pad_len(off, 8);
        let ek = enc(s[0].0, off + p);
        let e = zeros(p) + ek + enc(s[0].1, off + p + ek.len());
        e + enc_entries(s.subrange(1, s.len() as int), off + e.len())
    }
}


pub proof fn lemma_le_len(x: int, n: nat)
    ensures
        le(x, n).len() == n,
    decreases n,
{
    if n > 0 {
        lemma_le_len(x / 256, (n - 1) as nat);
    }
}

/// Once aligned, no more padding is needed.
pub proof fn lemma_pad_aligned(off: int, a: int)
    requires
        off >= 0,
        a == 1 || a == 2 || a == 4 || a == 8,
    ensures
        pad_len(off, a) >= 0,
        (off + pad_len(off, a)) % a == 0,
        pad_len(off + pad_len(off, a), a) == 0,
{
}

pub proof fn lemma_enc_seq_step(s: Seq<Val>, i: int, off: int)
    requires
        0 <= i < s.len(),
    ensures
        enc_seq(s.subrange(i, s.len() as int), off) == enc(s[i], off) + enc_seq(
            s.subrange(i + 1, s.len() as int),
            off + enc(s[i], off).len(),
        ),
{
    assert(s.subrange(i, s.len() as int).subrange(1, s.len() - i) =~= s.subrange(
        i + 1,
        s.len() as int,
    ));
}

pub proof fn lemma_enc_entries_step(s: Seq<(Val, Val)>, i: int, off: int)
    requires
        0 <= i < s.len(),
    ensures
        ({
            let p = pad_len(off, 8);
            let ek = enc(s[i].0, off + p);
            let e = zeros(p) + ek + enc(s[i].1, off + p + ek.len());
            enc_entries(s.subrange(i, s.len() as int), off) == e + enc_entries(
                s.subrange(i + 1, s.len() as int),
                off + e.len(),
            )
        }),
{
    assert(s.subrange(i, s.len() as int).subrange(1, s.len() - i) =~= s.subrange(
        i + 1,
        s.len() as int,
    ));
}

/// Appends zero bytes until the buffer's length is a multiple of `len`.
pub fn pad_to_multiple(buf: &mut Vec<u8>, len: usize)
    requires
        len > 0,
    ensures
        final(buf)@ == old(buf)@ + zeros(pad_len(old(buf)@.len() as int, len as int)),
{
    let pad = (len - (buf.len() % len)) % len;
    let ghost start = buf@;
    let mut i: usize = 0;
    while i < pad
        invariant
            i <= pad,
            pad == pad_len(start.len() as int, len as int),
            buf@ =~= start + zeros(i as int),
        decreases pad - i,
    {
        buf.push(0);
        i += 1;
        assert(buf@ =~= start + zeros(i as int));
    }
}

/// Aligns the buffer to `len` and appends the `len` low bytes of `x`, least
/// significant first. Returns `len`.
fn marshal_int(x: u64, len: usize, buf: &mut Vec<u8>) -> (r: usize)
    requires
        1 <= len <= 8,
    ensures
        final(buf)@ == old(buf)@ + zeros(pad_len(old(buf)@.len() as int, len as int)) + le(
            x as int,
            len as nat,
        ),
        le(x as int, len as nat).len() == len,
        r == len,
{
    proof {
        lemma_le_len(x as int, len as nat);
    }
    pad_to_multiple(buf, len);
    let ghost mid = buf@;
    let mut v: u64 = x;
    let mut i: usize = 0;
    while i < len
        invariant
            i <= len,
            buf@ + le(v as int, (len - i) as nat) == mid + le(x as int, len as nat),
        decreases len - i,
    {
        let ghost before = buf@;
        buf.push((v % 256) as u8);
        assert(le(v as int, (len - i) as nat) == seq![(v % 256) as u8] + le(
            (v / 256) as int,
            (len - i - 1) as nat,
        ));
        assert(buf@ + le((v / 256) as int, (len - i - 1) as nat) =~= before + le(
            v as int,
            (len - i) as nat,
        ));
        v = v / 256;
        i += 1;
    }
    assert(buf@ =~= mid + le(x as int, len as nat));
    len
}

/// Appends the bytes of `b` to the buffer.
fn push_bytes(buf: &mut Vec<u8>, b: &[u8])
    ensures
        final(buf)@ == old(buf)@ + b@,
{
    let ghost start = buf@;
    let mut i: usize = 0;
    while i < b.len()
        invariant
            i <= b@.len(),
            buf@ =~= start + b@.subrange(0, i as int),
        decreases b@.len() - i,
    {
        buf.push(b[i]);
        i += 1;
        assert(buf@ =~= start + b@.subrange(0, i as int));
    }
    assert(b@.subrange(0, b@.len() as int) =~= b@);
}

/// Appends a string (`s` or `o`): aligned 4-byte byte count, the UTF-8 bytes,
/// NUL. Returns the number of bytes appended after the alignment.
pub fn marshal_string(x: String, buf: &mut Vec<u8>) -> (r: usize)
    ensures
        final(buf)@ == old(buf)@ + zeros(pad_len(old(buf)@.len() as int, 4)) + str_payload(x@),
        r == str_payload(x@).len(),
{
    let bytes = x.as_str().as_bytes();
    pad_to_multiple(buf, 4);
    let mid = buf.len();
    marshal_int(bytes.len() as u64, 4, buf);
    push_bytes(buf, bytes);
    buf.push(0);
    assert(buf@ =~= old(buf)@ + zeros(pad_len(old(buf)@.len() as int, 4)) + str_payload(x@));
    buf.len() - mid
}

/// Appends a signature (`g`): 1-byte byte count, the bytes, NUL. Returns the
/// number of bytes appended.
pub fn marshal_signature(x: String, buf: &mut Vec<u8>) -> (r: usize)
    ensures
        final(buf)@ == old(buf)@ + sig_payload(x@),
        r == sig_payload(x@).len(),
{
    let bytes = x.as_str().as_bytes();
    let mid = buf.len();
    marshal_int(bytes.len() as u64, 1, buf);
    assert(pad_len(mid as int, 1) == 0);
    push_bytes(buf, bytes);
    buf.push(0);
    assert(buf@ =~= old(buf)@ + sig_payload(x@));
    buf.len() - mid
}


/// The alignment of the elements of an array with full signature `sig`.
fn elem_alignment(sig: &String) -> (r: usize)
    ensures
        r == elem_align(sig@),
{
    let s = sig.as_str();
    if s.unicode_len() >= 2 {
        get_alignment(s.get_char(1))
    } else {
        1
    }
}

fn encode_basic(v: &BasicValue, buf: &mut Vec<u8>) -> (r: usize)
    ensures
        final(buf)@ == old(buf)@ + enc(v.view(), old(buf)@.len() as int),
        r == enc(v.view(), old(buf)@.len() as int).len() - pad_len(
            old(buf)@.len() as int,
            val_align(v.view()),
        ),
{
    let ghost off = buf@.len() as int;
    match v {
        BasicValue::Byte(x) => {
            assert(pad_len(off, 1) == 0);
            assert(enc(v.view(), off) =~= seq![*x]);
            buf.push(*x);
            assert(buf@ =~= old(buf)@ + enc(v.view(), off));
            1
        },
        BasicValue::Boolean(x) => marshal_int(if *x { 1 } else { 0 }, 4, buf),
        BasicValue::Int16(x) => marshal_int((#[verifier::truncate] (*x as u16)) as u64, 2, buf),
        BasicValue::Uint16(x) => marshal_int(*x as u64, 2, buf),
        BasicValue::Int32(x) => marshal_int((#[verifier::truncate] (*x as u32)) as u64, 4, buf),
        BasicValue::Uint32(x) => marshal_int(*x as u64, 4, buf),
        BasicValue::Int64(x) => marshal_int(#[verifier::truncate] (*x as u64), 8, buf),
        BasicValue::Uint64(x) => marshal_int(*x, 8, buf),
        BasicValue::String(s) => marshal_string(s.clone(), buf),
        BasicValue::ObjectPath(p) => marshal_string(p.0.clone(), buf),
        BasicValue::Signature(g) => {
            assert(pad_len(off, 1) == 0);
            marshal_signature(g.0.clone(), buf)
        },
    }
}

/// Appends the encodings of `objs`, one after another.
fn encode_seq(objs: &Vec<Value>, buf: &mut Vec<u8>)
    ensures
        final(buf)@ == old(buf)@ + enc_seq(
            views(objs@, objs@.len()),
            old(buf)@.len() as int,
        ),
    decreases objs,
{
    let ghost mid = buf@;
    let n = objs.len();
    let ghost vs = views(objs@, n as nat);
    proof {
        lemma_views(objs@, n as nat);
        assert(vs.subrange(0, n as int) =~= vs);
    }
    let mut i: usize = 0;
    while i < n
        invariant
            n == objs@.len(),
            vs == views(objs@, n as nat),
            vs.len() == n,
            forall|k: int| 0 <= k < n ==> #[trigger] vs[k] == objs@[k]@,
            i <= n,
            buf@.len() >= mid.len(),
            buf@ + enc_seq(vs.subrange(i as int, n as int), buf@.len() as int) == mid + enc_seq(
                vs,
                mid.len() as int,
            ),
        decreases n - i,
    {
        proof {
            lemma_enc_seq_step(vs, i as int, buf@.len() as int);
            vstd::std_specs::vec::axiom_vec_index_decreases(*objs, i as int);
        }
        encode_value(&objs[i], buf);
        i += 1;
    }
    assert(vs.subrange(n as int, n as int) =~= Seq::<Val>::empty());
    assert(buf@ =~= mid + enc_seq(vs, mid.len() as int));
}

/// Appends the dictionary entries of `es`, each 8-aligned, key then value.
fn encode_entries(es: &Vec<(BasicValue, Value)>, buf: &mut Vec<u8>)
    ensures
        final(buf)@ == old(buf)@ + enc_entries(
            entry_views(es@, es@.len()),
            old(buf)@.len() as int,
        ),
    decreases es,
{
    let ghost mid = buf@;
    let n = es.len();
    let ghost vs = entry_views(es@, n as nat);
    proof {
        lemma_entry_views(es@, n as nat);
        assert(vs.subrange(0, n as int) =~= vs);
    }
    let mut i: usize = 0;
    while i < n
        invariant
            n == es@.len(),
            vs == entry_views(es@, n as nat),
            vs.len() == n,
            forall|k: int| 0 <= k < n ==> #[trigger] vs[k] == (es@[k].0.view(), es@[k].1@),
            i <= n,
            buf@.len() >= mid.len(),
            buf@ + enc_entries(vs.subrange(i as int, n as int), buf@.len() as int) == mid
                + enc_entries(vs, mid.len() as int),
        decreases n - i,
    {
        proof {
            lemma_enc_entries_step(vs, i as int, buf@.len() as int);
            vstd::std_specs::vec::axiom_vec_index_decreases(*es, i as int);
        }
        let ghost before = buf@;
        pad_to_multiple(buf, 8);
        encode_basic(&es[i].0, buf);
        encode_value(&es[i].1, buf);
        assert(buf@ =~= before + ({
            let off = before.len() as int;
            let p = pad_len(off, 8);
            let ek = enc(vs[i as int].0, off + p);
            zeros(p) + ek + enc(vs[i as int].1, off + p + ek.len())
        }));
        i += 1;
    }
    assert(vs.subrange(n as int, n as int) =~= Seq::<(Val, Val)>::empty());
    assert(buf@ =~= mid + enc_entries(vs, mid.len() as int));
}

/// Appends the encoding of `v`; returns the number of bytes appended after the
/// leading alignment.
pub fn encode_value(v: &Value, buf: &mut Vec<u8>) -> (r: usize)
    ensures
        final(buf)@ == old(buf)@ + enc(v@, old(buf)@.len() as int),
        r == enc(v@, old(buf)@.len() as int).len() - pad_len(
            old(buf)@.len() as int,
            val_align(v@),
        ),
    decreases v,
{
    let ghost off = buf@.len() as int;
    let start = buf.len();
    match v {
        Value::BasicValue(b) => encode_basic(b, buf),
        Value::Double(x) => marshal_int(*x, 8, buf),
        Value::Array(a) => encode_array(a, buf),
        Value::Variant(x) => {
            marshal_signature(x.signature.0.clone(), buf);
            encode_value(&x.object, buf);
            assert(pad_len(off, 1) == 0);
            assert(buf@ =~= old(buf)@ + enc(v@, off));
            buf.len() - start
        },
        Value::Struct(st) => {
            pad_to_multiple(buf, 8);
            let lead = buf.len() - start;
            encode_seq(&st.objects, buf);
            assert(buf@ =~= old(buf)@ + enc(v@, off));
            buf.len() - start - lead
        },
        Value::Dictionary(d) => encode_dict(d, buf),
    }
}

/// Appends an array: aligned length, padding to the element alignment, elements.
fn encode_array(a: &Array, buf: &mut Vec<u8>) -> (r: usize)
    ensures
        final(buf)@ == old(buf)@ + enc(Value::Array(*a)@, old(buf)@.len() as int),
        r == enc(Value::Array(*a)@, old(buf)@.len() as int).len() - pad_len(
            old(buf)@.len() as int,
            4,
        ),
    decreases a,
{
    let ghost off = buf@.len() as int;
    let start = buf.len();
    pad_to_multiple(buf, 4);
    proof {
        lemma_pad_aligned(off, 4);
    }
    let lead = buf.len() - start;
    let len_idx = buf.len();
    marshal_int(0, 4, buf);
    let ea = elem_alignment(&a.signature.0);
    pad_to_multiple(buf, ea);
    let body_start = buf.len();
    encode_seq(&a.objects, buf);
    let body_len = buf.len() - body_start;
    put_le32(buf, len_idx, body_len as u64);
    assert(buf@ =~= old(buf)@ + enc(Value::Array(*a)@, off));
    buf.len() - start - lead
}

/// Appends a dictionary: aligned length, padding to 8, entries.
fn encode_dict(d: &Dictionary, buf: &mut Vec<u8>) -> (r: usize)
    ensures
        final(buf)@ == old(buf)@ + enc(Value::Dictionary(*d)@, old(buf)@.len() as int),
        r == enc(Value::Dictionary(*d)@, old(buf)@.len() as int).len() - pad_len(
            old(buf)@.len() as int,
            4,
        ),
    decreases d,
{
    let ghost off = buf@.len() as int;
    let start = buf.len();
    pad_to_multiple(buf, 4);
    proof {
        lemma_pad_aligned(off, 4);
    }
    let lead = buf.len() - start;
    let len_idx = buf.len();
    marshal_int(0, 4, buf);
    pad_to_multiple(buf, 8);
    let body_start = buf.len();
    encode_entries(d.entries(), buf);
    let body_len = buf.len() - body_start;
    put_le32(buf, len_idx, body_len as u64);
    assert(buf@ =~= old(buf)@ + enc(Value::Dictionary(*d)@, off));
    buf.len() - start - lead
}

/// Overwrites the four bytes at `idx` with the low four bytes of `x`, least
/// significant first.
fn put_le32(buf: &mut Vec<u8>, idx: usize, x: u64)
    requires
        idx + 4 <= old(buf)@.len(),
    ensures
        final(buf)@ == old(buf)@.subrange(0, idx as int) + le(x as int, 4) + old(buf)@.subrange(
            idx + 4,
            old(buf)@.len() as int,
        ),
{
    let _n = buf.len();
    let i1 = idx + 1;
    let i2 = idx + 2;
    let i3 = idx + 3;
    buf[idx] = (x % 256) as u8;
    buf[i1] = ((x / 256) % 256) as u8;
    buf[i2] = ((x / 65536) % 256) as u8;
    buf[i3] = ((x / 16777216) % 256) as u8;
    proof {
        reveal_with_fuel(le, 5);
        assert((x as int / 256) / 256 == x as int / 65536);
        assert((x as int / 65536) / 256 == x as int / 16777216);
    }
    assert(buf@ =~= old(buf)@.subrange(0, idx as int) + le(x as int, 4) + old(buf)@.subrange(
        idx + 4,
        old(buf)@.len() as int,
    ));
}


/// The signature of a value.
pub open spec fn sig_of(v: Val) -> Seq<char> {
    match v {
        Val::Byte(_) => seq!['y'],
        Val::Boolean(_) => seq!['b'],
        Val::Int16(_) => seq!['n'],
        Val::Uint16(_) => seq!['q'],
        Val::Int32(_) => seq!['i'],
        Val::Uint32(_) => seq!['u'],
        Val::Int64(_) => seq!['x'],
        Val::Uint64(_) => seq!['t'],
        Val::Double(_) => seq!['d'],
        Val::Str(_) => seq!['s'],
        Val::ObjectPath(_) => seq!['o'],
        Val::Sig(_) => seq!['g'],
        Val::Array(sig, _) => sig,
        Val::Struct(sig, _) => sig,
        Val::Dict(sig, _) => sig,
        Val::Variant(_, _) => seq!['v'],
    }
}

/// A value that can be put on the wire.
pub trait Marshal {
    /// The value this encodes as.
    spec fn model(&self) -> Val;

    /// Encodes itself into `buf`, and returns the number of bytes written
    /// excluding leading padding.
    fn dbus_encode(&self, buf: &mut Vec<u8>) -> (r: usize)
        ensures
            final(buf)@ == old(buf)@ + enc(self.model(), old(buf)@.len() as int),
            r == enc(self.model(), old(buf)@.len() as int).len() - pad_len(
                old(buf)@.len() as int,
                val_align(self.model()),
            ),
    ;

    /// The D-Bus type signature of this value.
    fn get_type(&self) -> (r: String)
        ensures
            r@ == sig_of(self.model()),
    ;
}

/// A type whose values all have one signature, known without a value.
pub trait MarshalType: Marshal {
    /// The signature of every value of the type.
    spec fn type_sig() -> Seq<char>;

    /// The signature of every value of the type.
    fn signature() -> (r: String)
        ensures
            r@ == Self::type_sig(),
    ;
}

/// A value of a basic type: one that may key a dictionary.
pub trait BasicMarshal: Marshal {

}

/// The one-character signature `c`.
fn code_string(c: char) -> (r: String)
    requires
        c == 'y' || c == 'b' || c == 'n' || c == 'q' || c == 'i' || c == 'u' || c == 'x' || c
            == 't' || c == 's' || c == 'o' || c == 'g' || c == 'v',
    ensures
        r@ == seq![c],
{
    proof {
        reveal_strlit("y");
        reveal_strlit("b");
        reveal_strlit("n");
        reveal_strlit("q");
        reveal_strlit("i");
        reveal_strlit("u");
        reveal_strlit("x");
        reveal_strlit("t");
        reveal_strlit("s");
        reveal_strlit("o");
        reveal_strlit("g");
        reveal_strlit("v");
    }
    let r = match c {
        'y' => "y",
        'b' => "b",
        'n' => "n",
        'q' => "q",
        'i' => "i",
        'u' => "u",
        'x' => "x",
        't' => "t",
        's' => "s",
        'o' => "o",
        'g' => "g",
        _ => "v",
    };
    let r = r.to_owned();
    assert(r@ =~= seq![c]);
    r
}

/// The signature of a header field, `(yv)`.
pub fn code_string_yv() -> (r: String)
    ensures
        r@ == seq!['(', 'y', 'v', ')'],
{
    proof {
        reveal_strlit("(yv)");
    }
    let r = "(yv)".to_owned();
    assert(r@ =~= seq!['(', 'y', 'v', ')']);
    r
}

/// The signature of a value.
pub fn value_sig(v: &Value) -> (r: String)
    ensures
        r@ == sig_of(v@),
{
    match v {
        Value::BasicValue(b) => basic_sig(b),
        Value::Double(_) => {
            proof {
                reveal_strlit("d");
            }
            let r = "d".to_owned();
            assert(r@ =~= seq!['d']);
            r
        },
        Value::Array(a) => a.signature.0.clone(),
        Value::Variant(_) => code_string('v'),
        Value::Struct(st) => st.signature.0.clone(),
        Value::Dictionary(d) => d.signature().0.clone(),
    }
}

/// The signature of a basic value.
pub fn basic_sig(b: &BasicValue) -> (r: String)
    ensures
        r@ == sig_of(b.view()),
{
    let c = match b {
        BasicValue::Byte(_) => 'y',
        BasicValue::Boolean(_) => 'b',
        BasicValue::Int16(_) => 'n',
        BasicValue::Uint16(_) => 'q',
        BasicValue::Int32(_) => 'i',
        BasicValue::Uint32(_) => 'u',
        BasicValue::Int64(_) => 'x',
        BasicValue::Uint64(_) => 't',
        BasicValue::String(_) => 's',
        BasicValue::ObjectPath(_) => 'o',
        BasicValue::Signature(_) => 'g',
    };
    code_string(c)
}

impl Marshal for u8 {
    open spec fn model(&self) -> Val {
        Val::Byte(*self)
    }

    fn dbus_encode(&self, buf: &mut Vec<u8>) -> (r: usize) {
        encode_basic(&BasicValue::Byte(*self), buf)
    }

    fn get_type(&self) -> (r: String) {
        code_string('y')
    }
}

impl BasicMarshal for u8 {

}

impl MarshalType for u8 {
    open spec fn type_sig() -> Seq<char> {
        seq!['y']
    }

    fn signature() -> (r: String) {
        code_string('y')
    }
}

impl Marshal for bool {
    open spec fn model(&self) -> Val {
        Val::Boolean(*self)
    }

    fn dbus_encode(&self, buf: &mut Vec<u8>) -> (r: usize) {
        encode_basic(&BasicValue::Boolean(*self), buf)
    }

    fn get_type(&self) -> (r: String) {
        code_string('b')
    }
}

impl BasicMarshal for bool {

}

impl MarshalType for bool {
    open spec fn type_sig() -> Seq<char> {
        seq!['b']
    }

    fn signature() -> (r: String) {
        code_string('b')
    }
}

impl Marshal for i16 {
    open spec fn model(&self) -> Val {
        Val::Int16(*self)
    }

    fn dbus_encode(&self, buf: &mut Vec<u8>) -> (r: usize) {
        encode_basic(&BasicValue::Int16(*self), buf)
    }

    fn get_type(&self) -> (r: String) {
        code_string('n')
    }
}

impl BasicMarshal for i16 {

}

impl MarshalType for i16 {
    open spec fn type_sig() -> Seq<char> {
        seq!['n']
    }

    fn signature() -> (r: String) {
        code_string('n')
    }
}

impl Marshal for u16 {
    open spec fn model(&self) -> Val {
        Val::Uint16(*self)
    }

    fn dbus_encode(&self, buf: &mut Vec<u8>) -> (r: usize) {
        encode_basic(&BasicValue::Uint16(*self), buf)
    }

    fn get_type(&self) -> (r: String) {
        code_string('q')
    }
}

impl BasicMarshal for u16 {

}

impl MarshalType for u16 {
    open spec fn type_sig() -> Seq<char> {
        seq!['q']
    }

    fn signature() -> (r: String) {
        code_string('q')
    }
}

impl Marshal for i32 {
    open spec fn model(&self) -> Val {
        Val::Int32(*self)
    }

    fn dbus_encode(&self, buf: &mut Vec<u8>) -> (r: usize) {
        encode_basic(&BasicValue::Int32(*self), buf)
    }

    fn get_type(&self) -> (r: String) {
        code_string('i')
    }
}

impl BasicMarshal for i32 {

}

impl MarshalType for i32 {
    open spec fn type_sig() -> Seq<char> {
        seq!['i']
    }

    fn signature() -> (r: String) {
        code_string('i')
    }
}

impl Marshal for u32 {
    open spec fn model(&self) -> Val {
        Val::Uint32(*self)
    }

    fn dbus_encode(&self, buf: &mut Vec<u8>) -> (r: usize) {
        encode_basic(&BasicValue::Uint32(*self), buf)
    }

    fn get_type(&self) -> (r: String) {
        code_string('u')
    }
}

impl BasicMarshal for u32 {

}

impl MarshalType for u32 {
    open spec fn type_sig() -> Seq<char> {
        seq!['u']
    }

    fn signature() -> (r: String) {
        code_string('u')
    }
}

impl Marshal for i64 {
    open spec fn model(&self) -> Val {
        Val::Int64(*self)
    }

    fn dbus_encode(&self, buf: &mut Vec<u8>) -> (r: usize) {
        encode_basic(&BasicValue::Int64(*self), buf)
    }

    fn get_type(&self) -> (r: String) {
        code_string('x')
    }
}

impl BasicMarshal for i64 {

}

impl MarshalType for i64 {
    open spec fn type_sig() -> Seq<char> {
        seq!['x']
    }

    fn signature() -> (r: String) {
        code_string('x')
    }
}

impl Marshal for u64 {
    open spec fn model(&self) -> Val {
        Val::Uint64(*self)
    }

    fn dbus_encode(&self, buf: &mut Vec<u8>) -> (r: usize) {
        encode_basic(&BasicValue::Uint64(*self), buf)
    }

    fn get_type(&self) -> (r: String) {
        code_string('t')
    }
}

impl BasicMarshal for u64 {

}

impl MarshalType for u64 {
    open spec fn type_sig() -> Seq<char> {
        seq!['t']
    }

    fn signature() -> (r: String) {
        code_string('t')
    }
}

impl Marshal for String {
    open spec fn model(&self) -> Val {
        Val::Str(self@)
    }

    fn dbus_encode(&self, buf: &mut Vec<u8>) -> (r: usize) {
        marshal_string(self.clone(), buf)
    }

    fn get_type(&self) -> (r: String) {
        code_string('s')
    }
}

impl BasicMarshal for String {

}

impl MarshalType for String {
    open spec fn type_sig() -> Seq<char> {
        seq!['s']
    }

    fn signature() -> (r: String) {
        code_string('s')
    }
}

impl<'a> Marshal for &'a str {
    open spec fn model(&self) -> Val {
        Val::Str((*self)@)
    }

    fn dbus_encode(&self, buf: &mut Vec<u8>) -> (r: usize) {
        marshal_string((*self).to_owned(), buf)
    }

    fn get_type(&self) -> (r: String) {
        code_string('s')
    }
}

impl<'a> BasicMarshal for &'a str {

}

impl<'a> MarshalType for &'a str {
    open spec fn type_sig() -> Seq<char> {
        seq!['s']
    }

    fn signature() -> (r: String) {
        code_string('s')
    }
}

impl Marshal for Path {
    open spec fn model(&self) -> Val {
        Val::ObjectPath(self.0@)
    }

    fn dbus_encode(&self, buf: &mut Vec<u8>) -> (r: usize) {
        marshal_string(self.0.clone(), buf)
    }

    fn get_type(&self) -> (r: String) {
        code_string('o')
    }
}

impl BasicMarshal for Path {

}

impl MarshalType for Path {
    open spec fn type_sig() -> Seq<char> {
        seq!['o']
    }

    fn signature() -> (r: String) {
        code_string('o')
    }
}

impl Marshal for Signature {
    open spec fn model(&self) -> Val {
        Val::Sig(self.0@)
    }

    fn dbus_encode(&self, buf: &mut Vec<u8>) -> (r: usize) {
        proof {
            assert(pad_len(old(buf)@.len() as int, 1) == 0);
        }
        marshal_signature(self.0.clone(), buf)
    }

    fn get_type(&self) -> (r: String) {
        code_string('g')
    }
}

impl BasicMarshal for Signature {

}

impl MarshalType for Signature {
    open spec fn type_sig() -> Seq<char> {
        seq!['g']
    }

    fn signature() -> (r: String) {
        code_string('g')
    }
}

impl Marshal for BasicValue {
    open spec fn model(&self) -> Val {
        self.view()
    }

    fn dbus_encode(&self, buf: &mut Vec<u8>) -> (r: usize) {
        encode_basic(self, buf)
    }

    fn get_type(&self) -> (r: String) {
        basic_sig(self)
    }
}

impl BasicMarshal for BasicValue {

}

impl Marshal for Value {
    open spec fn model(&self) -> Val {
        self@
    }

    fn dbus_encode(&self, buf: &mut Vec<u8>) -> (r: usize) {
        encode_value(self, buf)
    }

    fn get_type(&self) -> (r: String) {
        value_sig(self)
    }
}

impl Marshal for Struct {
    open spec fn model(&self) -> Val {
        Val::Struct(self.signature.0@, views(self.objects@, self.objects@.len()))
    }

    fn dbus_encode(&self, buf: &mut Vec<u8>) -> (r: usize) {
        let ghost off = buf@.len() as int;
        let start = buf.len();
        pad_to_multiple(buf, 8);
        let lead = buf.len() - start;
        encode_seq(&self.objects, buf);
        assert(buf@ =~= old(buf)@ + enc(self.model(), off));
        buf.len() - start - lead
    }

    fn get_type(&self) -> (r: String) {
        self.signature.0.clone()
    }
}

impl Marshal for Variant {
    open spec fn model(&self) -> Val {
        Val::Variant(self.signature.0@, Box::new((*self.object)@))
    }

    fn dbus_encode(&self, buf: &mut Vec<u8>) -> (r: usize) {
        let ghost off = buf@.len() as int;
        let start = buf.len();
        marshal_signature(self.signature.0.clone(), buf);
        encode_value(&self.object, buf);
        assert(pad_len(off, 1) == 0);
        assert(buf@ =~= old(buf)@ + enc(self.model(), off));
        buf.len() - start
    }

    fn get_type(&self) -> (r: String) {
        code_string('v')
    }
}

/// The models of the items of `v`.
pub open spec fn item_models<T: Marshal>(v: Seq<T>) -> Seq<Val> {
    Seq::new(v.len(), |i: int| v[i].model())
}

/// The signature of an array of values of type `T`.
pub open spec fn items_sig<T: MarshalType>() -> Seq<char> {
    seq!['a'] + T::type_sig()
}

impl<T: MarshalType> Marshal for Vec<T> {
    open spec fn model(&self) -> Val {
        Val::Array(items_sig::<T>(), item_models(self@))
    }

    fn dbus_encode(&self, buf: &mut Vec<u8>) -> (r: usize) {
        let ghost off = buf@.len() as int;
        let start = buf.len();
        pad_to_multiple(buf, 4);
        proof {
            lemma_pad_aligned(off, 4);
        }
        let lead = buf.len() - start;
        let len_idx = buf.len();
        marshal_int(0, 4, buf);
        let sig = self.get_type();
        let ea = elem_alignment(&sig);
        pad_to_multiple(buf, ea);
        let body_start = buf.len();
        let ghost mid = buf@;
        let n = self.len();
        let ghost vs = item_models(self@);
        assert(vs.subrange(0, n as int) =~= vs);
        let mut i: usize = 0;
        while i < n
            invariant
                n == self@.len(),
                vs == item_models(self@),
                i <= n,
                buf@.len() >= mid.len(),
                buf@ + enc_seq(vs.subrange(i as int, n as int), buf@.len() as int) == mid + enc_seq(
                    vs,
                    mid.len() as int,
                ),
            decreases n - i,
        {
            proof {
                lemma_enc_seq_step(vs, i as int, buf@.len() as int);
            }
            self[i].dbus_encode(buf);
            i += 1;
        }
        assert(vs.subrange(n as int, n as int) =~= Seq::<Val>::empty());
        let body_len = buf.len() - body_start;
        put_le32(buf, len_idx, body_len as u64);
        assert(buf@ =~= old(buf)@ + enc(self.model(), off));
        buf.len() - start - lead
    }

    fn get_type(&self) -> (r: String) {
        Self::signature()
    }
}

impl<T: MarshalType> MarshalType for Vec<T> {
    open spec fn type_sig() -> Seq<char> {
        items_sig::<T>()
    }

    fn signature() -> (r: String) {
        proof {
            reveal_strlit("a");
        }
        let t = T::signature();
        let r = "a".to_owned().concat(t.as_str());
        assert(r@ =~= items_sig::<T>());
        r
    }
}

} // verus!
