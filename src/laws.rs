//! Properties of the codec, stated over the models of encoding and decoding.
use vstd::prelude::*;
use vstd::utf8::{encode_utf8, encode_utf8_decode_utf8, encode_utf8_valid_utf8};
use crate::demarshal::{
    dec, dec_basic, dec_elems, dec_entries, dec_fields, dec_str, dec_uint, dict_insert,
    fields_end, from_le, is_basic_code, is_key_code, key_index, pow256, type_end,
    DemarshalError, MAX_ARRAY_LEN,
};
use crate::marshal::{
    elem_align, enc, enc_entries, enc_seq, le, lemma_le_len, pad_len, sig_of, sig_payload,
    str_payload, val_align, zeros,
};
use crate::value::Val;

verus! {

/// Encoding a value at offset `k` first appends zero bytes up to the next
/// multiple of the value's alignment (none when `k` is aligned), then the
/// payload, which therefore starts aligned.
pub proof fn lemma_alignment(v: Val, k: int)
    requires
        k >= 0,
    ensures
        ({
            let a = val_align(v);
            let p = pad_len(k, a);
            &&& 0 <= p < a
            &&& (k + p) % a == 0
            &&& k % a == 0 ==> p == 0
            &&& enc(v, k).len() >= p
            &&& enc(v, k).subrange(0, p) == zeros(p)
        }),
{
    let a = val_align(v);
    let p = pad_len(k, a);
    assert(a == 1 || a == 2 || a == 4 || a == 8);
    lemma_pad(k, a);
    assert(enc(v, k).subrange(0, p) =~= zeros(p));
}

proof fn lemma_pad(k: int, a: int)
    requires
        k >= 0,
        a == 1 || a == 2 || a == 4 || a == 8,
    ensures
        0 <= pad_len(k, a) < a,
        (k + pad_len(k, a)) % a == 0,
        k % a == 0 ==> pad_len(k, a) == 0,
{
    let r = k % a;
    let q = k / a;
    assert(k == a * q + r) by (nonlinear_arith)
        requires
            a > 0,
            r == k % a,
            q == k / a,
    ;
    assert(0 <= r < a);
    let p = pad_len(k, a);
    if r == 0 {
        assert(p == 0);
    } else {
        assert(p == a - r);
        assert(k + p == a * (q + 1)) by (nonlinear_arith)
            requires
                k == a * q + r,
                p == a - r,
        ;
        assert((a * (q + 1)) % a == 0) by (nonlinear_arith)
            requires
                a > 0,
        ;
    }
}

/// An array whose declared byte length exceeds 2^26 is rejected with
/// `ElementTooBig`, whatever follows it.
pub proof fn lemma_array_length_bound(b: Seq<u8>, base: int, pos: int, s: Seq<char>, sp: int)
    requires
        0 <= sp < s.len(),
        s[sp] == 'a',
        type_end(s, sp + 1) is Ok,
        0 <= pos <= b.len(),
        dec_uint(b, base, pos, 4) matches Ok((l, _)) && l > MAX_ARRAY_LEN,
    ensures
        dec(b, base, pos, s, sp) == Err::<(Val, int, int), DemarshalError>(DemarshalError::ElementTooBig),
{
}


proof fn lemma_type_end_bounds(t: Seq<char>, i: int)
    requires
        type_end(t, i) is Ok,
    ensures
        0 <= i < type_end(t, i)->Ok_0 <= t.len(),
    decreases t.len() - i, 0int,
{
    let c = t[i];
    if c == 'a' {
        lemma_type_end_bounds(t, i + 1);
    } else if c == '(' {
        lemma_fields_end_bounds(t, i + 1, true);
    } else if c == '{' && !is_basic_code(c) {
        lemma_type_end_bounds(t, i + 2);
    }
}

proof fn lemma_fields_end_bounds(t: Seq<char>, i: int, first: bool)
    requires
        fields_end(t, i, first) is Ok,
    ensures
        0 <= i < fields_end(t, i, first)->Ok_0 <= t.len(),
    decreases t.len() - i, 1int,
{
    if t[i] != ')' {
        let j = type_end(t, i)->Ok_0;
        lemma_fields_end_bounds(t, j, false);
    }
}

/// Scanning a type looks only at the characters of that type.
proof fn lemma_type_end_frame(t: Seq<char>, i: int, j: int, s: Seq<char>, d: int)
    requires
        type_end(t, i) == Ok::<int, DemarshalError>(j),
        0 <= i + d,
        j + d <= s.len(),
        forall|k: int| i <= k < j ==> #[trigger] t[k] == s[k + d],
    ensures
        type_end(s, i + d) == Ok::<int, DemarshalError>(j + d),
    decreases t.len() - i, 0int,
{
    lemma_type_end_bounds(t, i);
    let c = t[i];
    assert(t[i] == s[i + d]);
    if c == 'a' {
        lemma_type_end_frame(t, i + 1, j, s, d);
    } else if c == '(' {
        lemma_fields_end_frame(t, i + 1, true, j, s, d);
    } else if c == '{' {
        lemma_type_end_bounds(t, i + 2);
        let j1 = type_end(t, i + 2)->Ok_0;
        assert(t[i + 1] == s[i + 1 + d]);
        lemma_type_end_frame(t, i + 2, j1, s, d);
        assert(t[j1] == s[j1 + d]);
    }
}

proof fn lemma_fields_end_frame(t: Seq<char>, i: int, first: bool, j: int, s: Seq<char>, d: int)
    requires
        fields_end(t, i, first) == Ok::<int, DemarshalError>(j),
        0 <= i + d,
        j + d <= s.len(),
        forall|k: int| i <= k < j ==> #[trigger] t[k] == s[k + d],
    ensures
        fields_end(s, i + d, first) == Ok::<int, DemarshalError>(j + d),
    decreases t.len() - i, 1int,
{
    lemma_fields_end_bounds(t, i, first);
    assert(t[i] == s[i + d]);
    if t[i] != ')' {
        lemma_type_end_bounds(t, i);
        let j1 = type_end(t, i)->Ok_0;
        lemma_fields_end_bounds(t, j1, false);
        lemma_type_end_frame(t, i, j1, s, d);
        lemma_fields_end_frame(t, j1, false, j, s, d);
    }
}

proof fn lemma_from_le_le(x: int, n: nat)
    requires
        0 <= x < pow256(n),
    ensures
        from_le(le(x, n)) == x,
    decreases n,
{
    lemma_le_len(x, n);
    if n > 0 {
        let e = le(x, n);
        assert(e.subrange(1, e.len() as int) =~= le(x / 256, (n - 1) as nat));
        lemma_from_le_le(x / 256, (n - 1) as nat);
    }
}

/// Reading an aligned unsigned integer that was written as `le(x, n)`.
proof fn lemma_dec_uint(b: Seq<u8>, base: int, pos: int, n: int, x: int)
    requires
        n == 1 || n == 2 || n == 4 || n == 8,
        0 <= base,
        0 <= pos,
        0 <= x < pow256(n as nat),
        pos + pad_len(base + pos, n) + n <= b.len(),
        b.subrange(pos, pos + pad_len(base + pos, n) + n) == zeros(pad_len(base + pos, n)) + le(x, n as nat),
    ensures
        dec_uint(b, base, pos, n) == Ok::<(nat, int), DemarshalError>((x as nat, pos + pad_len(base + pos, n) + n)),
{
    let p = pad_len(base + pos, n);
    lemma_pad(base + pos, n);
    lemma_le_len(x, n as nat);
    let whole = zeros(p) + le(x, n as nat);
    assert(b.subrange(pos + p, pos + p + n) =~= whole.subrange(p, p + n));
    assert(whole.subrange(p, p + n) =~= le(x, n as nat));
    lemma_from_le_le(x, n as nat);
}

/// Reading a string written as padding and `str_payload` (count size 4) or
/// as `sig_payload` (count size 1).
proof fn lemma_dec_str(b: Seq<u8>, base: int, pos: int, n: int, t: Seq<char>)
    requires
        n == 1 || n == 4,
        0 <= base,
        0 <= pos,
        encode_utf8(t).len() < pow256(n as nat),
        ({
            let e = zeros(pad_len(base + pos, n)) + if n == 4 { str_payload(t) } else { sig_payload(t) };
            pos + e.len() <= b.len() && b.subrange(pos, pos + e.len()) == e
        }),
    ensures
        dec_str(b, base, pos, n) == Ok::<(Seq<char>, int), DemarshalError>((t, pos + pad_len(base + pos, n) + if n == 4 {
            str_payload(t)
        } else {
            sig_payload(t)
        }.len())),
{
    let p = pad_len(base + pos, n);
    let u = encode_utf8(t);
    let l = u.len() as int;
    lemma_pad(base + pos, n);
    lemma_le_len(l, n as nat);
    let e = zeros(p) + if n == 4 { str_payload(t) } else { sig_payload(t) };
    assert(e =~= zeros(p) + le(l, n as nat) + u + seq![0u8]);
    assert(b.subrange(pos, pos + p + n) =~= e.subrange(0, p + n));
    assert(e.subrange(0, p + n) =~= zeros(p) + le(l, n as nat));
    lemma_dec_uint(b, base, pos, n, l);
    let p1 = pos + p + n;
    assert(b.subrange(p1, p1 + l) =~= e.subrange(p + n, p + n + l));
    assert(e.subrange(p + n, p + n + l) =~= u);
    assert(b[p1 + l] == e[p + n + l]);
    encode_utf8_valid_utf8(t);
    encode_utf8_decode_utf8(t);
}


/// The signatures of values, one after another.
pub open spec fn sigs(vs: Seq<Val>) -> Seq<char>
    decreases vs.len(),
{
    if vs.len() == 0 {
        Seq::empty()
    } else {
        sig_of(vs[0]) + sigs(vs.subrange(1, vs.len() as int))
    }
}

/// A value that the wire format carries as it is: container signatures
/// describe their contents, texts fit their length fields, and structs have
/// at least one field.
pub open spec fn well_formed(v: Val) -> bool
    decreases v,
{
    match v {
        Val::Str(t) => encode_utf8(t).len() < 0x1_0000_0000,
        Val::ObjectPath(t) => encode_utf8(t).len() < 0x1_0000_0000,
        Val::Sig(t) => encode_utf8(t).len() < 256,
        Val::Array(sig, elems) => {
            &&& sig.len() >= 2
            &&& sig[0] == 'a'
            &&& sig[1] != '{'
            &&& type_end(sig, 1) == Ok::<int, DemarshalError>(sig.len() as int)
            &&& forall|i: int|
                0 <= i < elems.len() ==> well_formed(#[trigger] elems[i]) && sig_of(elems[i])
                    == sig.subrange(1, sig.len() as int)
        },
        Val::Struct(sig, fs) => {
            &&& fs.len() > 0
            &&& sig == seq!['('] + sigs(fs) + seq![')']
            &&& forall|i: int| 0 <= i < fs.len() ==> well_formed(#[trigger] fs[i])
        },
        Val::Variant(sig, inner) => {
            &&& sig == sig_of(*inner)
            &&& encode_utf8(sig).len() < 256
            &&& type_end(sig, 0) == Ok::<int, DemarshalError>(sig.len() as int)
            &&& well_formed(*inner)
        },
        Val::Dict(sig, es) => {
            &&& sig.len() >= 4
            &&& sig[0] == 'a'
            &&& sig[1] == '{'
            &&& is_key_code(sig[2])
            &&& type_end(sig, 1) == Ok::<int, DemarshalError>(sig.len() as int)
            &&& forall|i: int|
                0 <= i < es.len() ==> well_formed(#[trigger] es[i].0) && sig_of(es[i].0) == seq![sig[2]]
                    && well_formed(es[i].1) && sig_of(es[i].1) == sig.subrange(3, sig.len() - 1)
            &&& forall|i: int, j: int| 0 <= i < j < es.len() ==> es[i].0 != es[j].0
        },
        _ => true,
    }
}

/// The signature of a well-formed value starts with a type code.
proof fn lemma_sig_start(v: Val)
    requires
        well_formed(v),
    ensures
        sig_of(v).len() >= 1,
        sig_of(v)[0] != ')' && sig_of(v)[0] != '}',
{
    match v {
        Val::Struct(sig, fs) => {
            assert(sig[0] == '(');
        },
        _ => {},
    }
}

/// A part of an encoding that sits in `b` sits there too.
proof fn lemma_sub(b: Seq<u8>, pos: int, e: Seq<u8>, i: int, j: int)
    requires
        0 <= pos,
        pos + e.len() <= b.len(),
        b.subrange(pos, pos + e.len()) == e,
        0 <= i <= j <= e.len(),
    ensures
        b.subrange(pos + i, pos + j) == e.subrange(i, j),
{
    assert(b.subrange(pos + i, pos + j) =~= e.subrange(i, j)) by {
        assert forall|k: int| 0 <= k < j - i implies #[trigger] b.subrange(pos + i, pos + j)[k] == e.subrange(i, j)[k] by {
            assert(b.subrange(pos, pos + e.len())[i + k] == e[i + k]);
        }
    }
}

/// A well-formed value takes at least one byte.
proof fn lemma_enc_nonempty(v: Val, k: int)
    requires
        well_formed(v),
    ensures
        enc(v, k).len() >= 1,
    decreases v,
{
    let p = pad_len(k, val_align(v));
    match v {
        Val::Struct(sig, fs) => {
            let e0 = enc(fs[0], k + p);
            lemma_enc_nonempty(fs[0], k + p);
            assert(enc_seq(fs, k + p).len() >= e0.len());
        },
        Val::Array(sig, elems) => {
            lemma_le_len(enc_seq(elems, k + p + 4 + pad_len(k + p + 4, elem_align(sig))).len() as int, 4);
        },
        Val::Dict(sig, es) => {
            lemma_le_len(enc_entries(es, k + p + 4 + pad_len(k + p + 4, 8)).len() as int, 4);
        },
        Val::Boolean(x) => lemma_le_len(if x { 1 } else { 0 }, 4),
        Val::Int16(x) => lemma_le_len((x as u16) as int, 2),
        Val::Uint16(x) => lemma_le_len(x as int, 2),
        Val::Int32(x) => lemma_le_len((x as u32) as int, 4),
        Val::Uint32(x) => lemma_le_len(x as int, 4),
        Val::Int64(x) => lemma_le_len((x as u64) as int, 8),
        Val::Uint64(x) => lemma_le_len(x as int, 8),
        Val::Double(x) => lemma_le_len(x as int, 8),
        _ => {},
    }
}

/// Every array and dictionary inside `v`, encoded at offset `off`, has a
/// body within the bound that decoding accepts.
pub open spec fn fits(v: Val, off: int) -> bool
    decreases v,
{
    let p = pad_len(off, val_align(v));
    let at = off + p;
    match v {
        Val::Array(sig, elems) => {
            let q = pad_len(at + 4, elem_align(sig));
            enc_seq(elems, at + 4 + q).len() <= MAX_ARRAY_LEN && seq_fits(elems, at + 4 + q)
        },
        Val::Dict(_, es) => {
            let q = pad_len(at + 4, 8);
            enc_entries(es, at + 4 + q).len() <= MAX_ARRAY_LEN && entries_fit(es, at + 4 + q)
        },
        Val::Struct(_, fs) => seq_fits(fs, at),
        Val::Variant(sig, inner) => fits(*inner, at + sig_payload(sig).len()),
        _ => true,
    }
}

/// `fits` for values encoded one after another from `off`.
pub open spec fn seq_fits(s: Seq<Val>, off: int) -> bool
    decreases s,
{
    if s.len() == 0 {
        true
    } else {
        fits(s[0], off) && seq_fits(s.subrange(1, s.len() as int), off + enc(s[0], off).len())
    }
}

/// `fits` for dictionary entries encoded one after another from `off`.
pub open spec fn entries_fit(s: Seq<(Val, Val)>, off: int) -> bool
    decreases s,
{
    if s.len() == 0 {
        true
    } else {
        let p = pad_len(off, 8);
        let ek = enc(s[0].0, off + p);
        let e = zeros(p) + ek + enc(s[0].1, off + p + ek.len());
        fits(s[0].0, off + p) && fits(s[0].1, off + p + ek.len()) && entries_fit(
            s.subrange(1, s.len() as int),
            off + e.len(),
        )
    }
}

/// What the round trip asks of a position in bytes and signature.
pub open spec fn placed(v: Val, b: Seq<u8>, base: int, pos: int, s: Seq<char>, sp: int) -> bool {
    let e = enc(v, base + pos);
    &&& 0 <= base
    &&& 0 <= pos
    &&& 0 <= sp
    &&& pos + e.len() <= b.len()
    &&& b.subrange(pos, pos + e.len()) == e
    &&& fits(v, base + pos)
    &&& sp + sig_of(v).len() <= s.len()
    &&& s.subrange(sp, sp + sig_of(v).len()) == sig_of(v)
}

/// What decoding gives back for `v` in that position.
pub open spec fn decoded(v: Val, b: Seq<u8>, base: int, pos: int, s: Seq<char>, sp: int) -> bool {
    dec(b, base, pos, s, sp) == Ok::<(Val, int, int), DemarshalError>(
        (v, pos + enc(v, base + pos).len(), sp + sig_of(v).len()),
    )
}

/// The fixed-size basic values.
#[verifier::rlimit(60)]
proof fn lemma_dec_enc_int(v: Val, b: Seq<u8>, base: int, pos: int, s: Seq<char>, sp: int)
    requires
        placed(v, b, base, pos, s, sp),
        v is Byte || v is Boolean || v is Int16 || v is Uint16 || v is Int32 || v is Uint32
            || v is Int64 || v is Uint64 || v is Double,
    ensures
        decoded(v, b, base, pos, s, sp),
{
    let off = base + pos;
    assert(s.subrange(sp, sp + 1)[0] == s[sp]);
    reveal(dec_basic);
    reveal_with_fuel(pow256, 9);
    let a = val_align(v);
    lemma_pad(off, a);
    match v {
        Val::Byte(x) => {
            lemma_le_len(x as int, 1);
            assert(enc(v, off) =~= zeros(pad_len(off, 1)) + le(x as int, 1));
            lemma_dec_uint(b, base, pos, 1, x as int);
        },
        Val::Boolean(x) => {
            lemma_le_len(if x { 1 } else { 0 }, 4);
            lemma_dec_uint(b, base, pos, 4, if x { 1 } else { 0 });
        },
        Val::Int16(x) => {
            lemma_le_len((x as u16) as int, 2);
            lemma_dec_uint(b, base, pos, 2, (x as u16) as int);
            assert(((x as u16) as i16) == x) by (bit_vector);
        },
        Val::Uint16(x) => {
            lemma_le_len(x as int, 2);
            lemma_dec_uint(b, base, pos, 2, x as int);
        },
        Val::Int32(x) => {
            lemma_le_len((x as u32) as int, 4);
            lemma_dec_uint(b, base, pos, 4, (x as u32) as int);
            assert(((x as u32) as i32) == x) by (bit_vector);
        },
        Val::Uint32(x) => {
            lemma_le_len(x as int, 4);
            lemma_dec_uint(b, base, pos, 4, x as int);
        },
        Val::Int64(x) => {
            lemma_le_len((x as u64) as int, 8);
            lemma_dec_uint(b, base, pos, 8, (x as u64) as int);
            assert(((x as u64) as i64) == x) by (bit_vector);
        },
        Val::Uint64(x) => {
            lemma_le_len(x as int, 8);
            lemma_dec_uint(b, base, pos, 8, x as int);
        },
        Val::Double(x) => {
            lemma_le_len(x as int, 8);
            lemma_dec_uint(b, base, pos, 8, x as int);
        },
        _ => {},
    }
}

/// Strings, object paths and signatures.
proof fn lemma_dec_enc_text(v: Val, b: Seq<u8>, base: int, pos: int, s: Seq<char>, sp: int)
    requires
        placed(v, b, base, pos, s, sp),
        well_formed(v),
        v is Str || v is ObjectPath || v is Sig,
    ensures
        decoded(v, b, base, pos, s, sp),
{
    let off = base + pos;
    assert(s.subrange(sp, sp + 1)[0] == s[sp]);
    reveal(dec_basic);
    reveal_with_fuel(pow256, 9);
    match v {
        Val::Str(t) => {
            lemma_pad(off, 4);
            lemma_dec_str(b, base, pos, 4, t);
        },
        Val::ObjectPath(t) => {
            lemma_pad(off, 4);
            lemma_dec_str(b, base, pos, 4, t);
        },
        Val::Sig(t) => {
            lemma_pad(off, 1);
            lemma_dec_str(b, base, pos, 1, t);
        },
        _ => {},
    }
}

/// Decoding what `v` was encoded as gives `v` back, with the bytes and the
/// signature characters of `v` used up.
proof fn lemma_dec_enc(v: Val, b: Seq<u8>, base: int, pos: int, s: Seq<char>, sp: int)
    requires
        well_formed(v),
        placed(v, b, base, pos, s, sp),
    ensures
        decoded(v, b, base, pos, s, sp),
    decreases v, 1int,
{
    match v {
        Val::Str(_) | Val::ObjectPath(_) | Val::Sig(_) => lemma_dec_enc_text(v, b, base, pos, s, sp),
        Val::Variant(_, _) => lemma_dec_enc_variant(v, b, base, pos, s, sp),
        Val::Struct(_, _) => lemma_dec_enc_struct(v, b, base, pos, s, sp),
        Val::Array(_, _) => lemma_dec_enc_array(v, b, base, pos, s, sp),
        Val::Dict(_, _) => lemma_dec_enc_dict(v, b, base, pos, s, sp),
        _ => lemma_dec_enc_int(v, b, base, pos, s, sp),
    }
}

proof fn lemma_dec_enc_variant(v: Val, b: Seq<u8>, base: int, pos: int, s: Seq<char>, sp: int)
    requires
        well_formed(v),
        placed(v, b, base, pos, s, sp),
        v is Variant,
    ensures
        decoded(v, b, base, pos, s, sp),
    decreases v, 0int,
{
    let sig = v->Variant_0;
    let inner = *v->Variant_1;
    let off = base + pos;
    let e = enc(v, off);
    assert(s.subrange(sp, sp + 1)[0] == s[sp]);
    lemma_pad(off, 1);
    let pl = sig_payload(sig);
    let ei = enc(inner, off + pl.len());
    assert(e =~= pl + ei);
    lemma_sub(b, pos, e, 0, pl.len() as int);
    assert(e.subrange(0, pl.len() as int) =~= zeros(pad_len(off, 1)) + pl);
    reveal_with_fuel(pow256, 9);
    lemma_dec_str(b, base, pos, 1, sig);
    let p1 = pos + pl.len();
    lemma_sub(b, pos, e, pl.len() as int, e.len() as int);
    assert(e.subrange(pl.len() as int, e.len() as int) =~= ei);
    assert(sig.subrange(0, sig_of(inner).len() as int) =~= sig_of(inner));
    lemma_dec_enc(inner, b, base, p1, sig, 0);
}

proof fn lemma_dec_enc_struct(v: Val, b: Seq<u8>, base: int, pos: int, s: Seq<char>, sp: int)
    requires
        well_formed(v),
        placed(v, b, base, pos, s, sp),
        v is Struct,
    ensures
        decoded(v, b, base, pos, s, sp),
    decreases v, 0int,
{
    let sig = v->Struct_0;
    let fs = v->Struct_1;
    let off = base + pos;
    let e = enc(v, off);
    assert(s.subrange(sp, sp + sig.len())[0] == s[sp]);
    lemma_pad(off, 8);
    let p = pad_len(off, 8);
    let body = enc_seq(fs, off + p);
    assert(e =~= zeros(p) + body);
    lemma_sub(b, pos, e, p, e.len() as int);
    assert(e.subrange(p, e.len() as int) =~= body);
    let n = sigs(fs).len() as int;
    assert(sig.len() == n + 2);
    assert(s.subrange(sp + 1, sp + 1 + n) =~= sig.subrange(1, 1 + n)) by {
        assert forall|k: int| 0 <= k < n implies #[trigger] s.subrange(sp + 1, sp + 1 + n)[k] == sig.subrange(1, 1 + n)[k] by {
            assert(s.subrange(sp, sp + sig.len())[k + 1] == sig[k + 1]);
        }
    }
    assert(sig.subrange(1, 1 + n) =~= sigs(fs));
    assert(s.subrange(sp, sp + sig.len())[n + 1] == sig[n + 1]);
    lemma_dec_fields(fs, Seq::empty(), true, b, base, pos + p, s, sp + 1);
    assert(crate::demarshal::closer(s[sp]) == ')');
    assert(Seq::<Val>::empty() + fs =~= fs);
    assert(s.subrange(sp, sp + n + 2) =~= sig);
}

proof fn lemma_dec_enc_array(v: Val, b: Seq<u8>, base: int, pos: int, s: Seq<char>, sp: int)
    requires
        well_formed(v),
        placed(v, b, base, pos, s, sp),
        v is Array,
    ensures
        decoded(v, b, base, pos, s, sp),
    decreases v, 0int,
{
    let sig = v->Array_0;
    let elems = v->Array_1;
    let off = base + pos;
    let e = enc(v, off);
    assert(s.subrange(sp, sp + sig.len())[0] == s[sp]);
    lemma_pad(off, 4);
    let p = pad_len(off, 4);
    let at = off + p;
    let q = pad_len(at + 4, elem_align(sig));
    let body = enc_seq(elems, at + 4 + q);
    let l = body.len() as int;
    lemma_le_len(l, 4);
    assert(e =~= zeros(p) + le(l, 4) + zeros(q) + body);
    lemma_sub(b, pos, e, 0, p + 4);
    assert(e.subrange(0, p + 4) =~= zeros(p) + le(l, 4));
    reveal_with_fuel(pow256, 9);
    lemma_dec_uint(b, base, pos, 4, l);
    assert forall|k: int| 1 <= k < sig.len() implies #[trigger] sig[k] == s[k + sp] by {
        assert(s.subrange(sp, sp + sig.len())[k] == s[k + sp]);
    }
    lemma_type_end_frame(sig, 1, sig.len() as int, s, sp);
    assert(s[sp + 1] == sig[1]);
    let ea = crate::marshal::align_of(sig[1]);
    lemma_pad(at + 4, ea);
    let start = pos + p + 4 + q;
    lemma_sub(b, pos, e, p + 4 + q, e.len() as int);
    assert(e.subrange(p + 4 + q, e.len() as int) =~= body);
    let el = sig.len() - 1;
    assert forall|i: int| 0 <= i < elems.len() implies well_formed(#[trigger] elems[i]) && sig_of(elems[i])
        == s.subrange(sp + 1, sp + 1 + el) by {
        assert(s.subrange(sp + 1, sp + 1 + el) =~= sig.subrange(1, sig.len() as int)) by {
            assert forall|k: int| 0 <= k < el implies #[trigger] s.subrange(sp + 1, sp + 1 + el)[k] == sig.subrange(1, sig.len() as int)[k] by {
                assert(s.subrange(sp, sp + sig.len())[k + 1] == sig[k + 1]);
            }
        }
    }
    lemma_dec_elems(elems, Seq::empty(), b, base, start, start + l, s, sp + 1, el);
    assert(Seq::<Val>::empty() + elems =~= elems);
    assert(s.subrange(sp, sp + sig.len()) =~= sig);
}

/// Decoding the encodings of struct fields, up to the closing parenthesis.
proof fn lemma_dec_fields(
    rest: Seq<Val>,
    acc: Seq<Val>,
    first: bool,
    b: Seq<u8>,
    base: int,
    pos: int,
    s: Seq<char>,
    sp: int,
)
    requires
        forall|i: int| 0 <= i < rest.len() ==> well_formed(#[trigger] rest[i]),
        first ==> rest.len() > 0,
        0 <= base,
        0 <= pos,
        0 <= sp,
        pos + enc_seq(rest, base + pos).len() <= b.len(),
        b.subrange(pos, pos + enc_seq(rest, base + pos).len()) == enc_seq(rest, base + pos),
        seq_fits(rest, base + pos),
        sp + sigs(rest).len() < s.len(),
        s.subrange(sp, sp + sigs(rest).len()) == sigs(rest),
        s[sp + sigs(rest).len()] == ')',
    ensures
        dec_fields(b, base, pos, s, sp, ')', first, acc) == Ok::<(Seq<Val>, int, int), DemarshalError>(
            (acc + rest, pos + enc_seq(rest, base + pos).len(), sp + sigs(rest).len() + 1),
        ),
    decreases rest,
{
    if rest.len() == 0 {
        assert(acc + rest =~= acc);
    } else {
        let v = rest[0];
        let tail = rest.subrange(1, rest.len() as int);
        let off = base + pos;
        let e0 = enc(v, off);
        let whole = enc_seq(rest, off);
        let et = enc_seq(tail, off + e0.len());
        assert(whole =~= e0 + et);
        let g0 = sig_of(v);
        let gs = sigs(rest);
        assert(gs =~= g0 + sigs(tail));
        lemma_sig_start(v);
        assert(s.subrange(sp, sp + gs.len())[0] == s[sp]);
        lemma_sub(b, pos, whole, 0, e0.len() as int);
        assert(whole.subrange(0, e0.len() as int) =~= e0);
        assert(s.subrange(sp, sp + g0.len()) =~= g0) by {
            assert forall|k: int| 0 <= k < g0.len() implies #[trigger] s.subrange(sp, sp + g0.len())[k] == g0[k] by {
                assert(s.subrange(sp, sp + gs.len())[k] == gs[k]);
            }
        }
        lemma_dec_enc(v, b, base, pos, s, sp);
        let p1 = pos + e0.len();
        let sp1 = sp + g0.len();
        lemma_sub(b, pos, whole, e0.len() as int, whole.len() as int);
        assert(whole.subrange(e0.len() as int, whole.len() as int) =~= et);
        assert(s.subrange(sp1, sp1 + sigs(tail).len()) =~= sigs(tail)) by {
            assert forall|k: int| 0 <= k < sigs(tail).len() implies #[trigger] s.subrange(sp1, sp1 + sigs(tail).len())[k] == sigs(tail)[k] by {
                assert(s.subrange(sp, sp + gs.len())[g0.len() + k] == gs[g0.len() + k]);
            }
        }
        assert forall|i: int| 0 <= i < tail.len() implies well_formed(#[trigger] tail[i]) by {
            assert(tail[i] == rest[i + 1]);
        }
        lemma_dec_fields(tail, acc.push(v), false, b, base, p1, s, sp1);
        assert(acc.push(v) + tail =~= acc + rest);
    }
}

/// Decoding the encodings of array elements, up to the end of the array.
proof fn lemma_dec_elems(
    rest: Seq<Val>,
    acc: Seq<Val>,
    b: Seq<u8>,
    base: int,
    pos: int,
    end: int,
    s: Seq<char>,
    se: int,
    el: int,
)
    requires
        forall|i: int|
            0 <= i < rest.len() ==> well_formed(#[trigger] rest[i]) && sig_of(rest[i]) == s.subrange(
                se,
                se + el,
            ),
        0 <= base,
        0 <= pos,
        0 <= se,
        0 <= el,
        se + el <= s.len(),
        end == pos + enc_seq(rest, base + pos).len(),
        end <= b.len(),
        b.subrange(pos, end) == enc_seq(rest, base + pos),
        seq_fits(rest, base + pos),
    ensures
        dec_elems(b, base, pos, end, s, se, acc) == Ok::<(Seq<Val>, int), DemarshalError>(
            (acc + rest, end),
        ),
    decreases rest,
{
    if rest.len() == 0 {
        assert(acc + rest =~= acc);
    } else {
        let v = rest[0];
        let tail = rest.subrange(1, rest.len() as int);
        let off = base + pos;
        let e0 = enc(v, off);
        let whole = enc_seq(rest, off);
        let et = enc_seq(tail, off + e0.len());
        assert(whole =~= e0 + et);
        lemma_enc_nonempty(v, off);
        lemma_sub(b, pos, whole, 0, e0.len() as int);
        assert(whole.subrange(0, e0.len() as int) =~= e0);
        assert(s.subrange(se, se + sig_of(v).len()) =~= sig_of(v));
        lemma_dec_enc(v, b, base, pos, s, se);
        let p1 = pos + e0.len();
        lemma_sub(b, pos, whole, e0.len() as int, whole.len() as int);
        assert(whole.subrange(e0.len() as int, whole.len() as int) =~= et);
        assert forall|i: int| 0 <= i < tail.len() implies well_formed(#[trigger] tail[i]) && sig_of(tail[i])
            == s.subrange(se, se + el) by {
            assert(tail[i] == rest[i + 1]);
        }
        lemma_dec_elems(tail, acc.push(v), b, base, p1, end, s, se, el);
        assert(acc.push(v) + tail =~= acc + rest);
    }
}


/// Codec round trip: for a well-formed value none of whose arrays or
/// dictionaries has a body over the bound that decoding rejects, encoding it into a buffer of length `base` and decoding the bytes
/// appended (whatever follows them), with `base` as the offset and the
/// value's signature (whatever follows it), gives the value back and uses up
/// exactly its bytes and its signature.
pub proof fn lemma_round_trip(v: Val, base: int, rest: Seq<u8>, srest: Seq<char>)
    requires
        well_formed(v),
        0 <= base,
        fits(v, base),
    ensures
        dec(enc(v, base) + rest, base, 0, sig_of(v) + srest, 0) == Ok::<(Val, int, int), DemarshalError>(
            (v, enc(v, base).len() as int, sig_of(v).len() as int),
        ),
{
    let e = enc(v, base);
    let b = e + rest;
    let s = sig_of(v) + srest;
    assert(b.subrange(0, e.len() as int) =~= e);
    assert(s.subrange(0, sig_of(v).len() as int) =~= sig_of(v));
    lemma_dec_enc(v, b, base, 0, s, 0);
}


proof fn lemma_key_index_absent(es: Seq<(Val, Val)>, k: Val)
    requires
        forall|i: int| 0 <= i < es.len() ==> #[trigger] es[i].0 != k,
    ensures
        key_index(es, k) == -1,
    decreases es.len(),
{
    if es.len() > 0 {
        assert(es.last() == es[es.len() - 1]);
        lemma_key_index_absent(es.drop_last(), k);
    }
}

proof fn lemma_dec_enc_dict(v: Val, b: Seq<u8>, base: int, pos: int, s: Seq<char>, sp: int)
    requires
        well_formed(v),
        placed(v, b, base, pos, s, sp),
        v is Dict,
    ensures
        decoded(v, b, base, pos, s, sp),
    decreases v, 0int,
{
    let sig = v->Dict_0;
    let es = v->Dict_1;
    let off = base + pos;
    let e = enc(v, off);
    assert(s.subrange(sp, sp + sig.len())[0] == s[sp]);
    lemma_pad(off, 4);
    let p = pad_len(off, 4);
    let at = off + p;
    let q = pad_len(at + 4, 8);
    let body = enc_entries(es, at + 4 + q);
    let l = body.len() as int;
    lemma_le_len(l, 4);
    assert(e =~= zeros(p) + le(l, 4) + zeros(q) + body);
    lemma_sub(b, pos, e, 0, p + 4);
    assert(e.subrange(0, p + 4) =~= zeros(p) + le(l, 4));
    reveal_with_fuel(pow256, 9);
    lemma_dec_uint(b, base, pos, 4, l);
    assert forall|k: int| 1 <= k < sig.len() implies #[trigger] sig[k] == s[k + sp] by {
        assert(s.subrange(sp, sp + sig.len())[k] == s[k + sp]);
    }
    lemma_type_end_frame(sig, 1, sig.len() as int, s, sp);
    assert(s[sp + 1] == sig[1]);
    assert(s[sp + 2] == sig[2]);
    lemma_pad(at + 4, 8);
    let start = pos + p + 4 + q;
    lemma_sub(b, pos, e, p + 4 + q, e.len() as int);
    assert(e.subrange(p + 4 + q, e.len() as int) =~= body);
    let vl = sig.len() - 4;
    assert(s.subrange(sp + 3, sp + 3 + vl) =~= sig.subrange(3, sig.len() - 1)) by {
        assert forall|k: int| 0 <= k < vl implies #[trigger] s.subrange(sp + 3, sp + 3 + vl)[k] == sig.subrange(3, sig.len() - 1)[k] by {
            assert(s.subrange(sp, sp + sig.len())[k + 3] == sig[k + 3]);
        }
    }
    lemma_dec_entries(es, Seq::empty(), b, base, start, start + l, s, sp + 1, vl);
    assert(Seq::<(Val, Val)>::empty() + es =~= es);
    assert(s.subrange(sp, sp + sig.len()) =~= sig);
}

/// Decoding the encodings of dictionary entries with distinct keys.
#[verifier::rlimit(60)]
proof fn lemma_dec_entries(
    rest: Seq<(Val, Val)>,
    acc: Seq<(Val, Val)>,
    b: Seq<u8>,
    base: int,
    pos: int,
    end: int,
    s: Seq<char>,
    se: int,
    vl: int,
)
    requires
        se + 2 + vl <= s.len(),
        0 <= se,
        0 <= vl,
        is_key_code(s[se + 1]),
        forall|i: int|
            0 <= i < rest.len() ==> well_formed(#[trigger] rest[i].0) && sig_of(rest[i].0) == seq![s[se + 1]]
                && well_formed(rest[i].1) && sig_of(rest[i].1) == s.subrange(se + 2, se + 2 + vl),
        forall|i: int, j: int| 0 <= i < j < rest.len() ==> rest[i].0 != rest[j].0,
        forall|i: int, j: int| 0 <= i < acc.len() && 0 <= j < rest.len() ==> acc[i].0 != rest[j].0,
        0 <= base,
        0 <= pos,
        end == pos + enc_entries(rest, base + pos).len(),
        end <= b.len(),
        b.subrange(pos, end) == enc_entries(rest, base + pos),
        entries_fit(rest, base + pos),
    ensures
        dec_entries(b, base, pos, end, s, se, acc) == Ok::<(Seq<(Val, Val)>, int), DemarshalError>(
            (acc + rest, end),
        ),
    decreases rest,
{
    if rest.len() == 0 {
        assert(acc + rest =~= acc);
    } else {
        let k = rest[0].0;
        let x = rest[0].1;
        let tail = rest.subrange(1, rest.len() as int);
        let off = base + pos;
        let p8 = pad_len(off, 8);
        lemma_pad(off, 8);
        let ek = enc(k, off + p8);
        let ex = enc(x, off + p8 + ek.len());
        let e0 = zeros(p8) + ek + ex;
        let whole = enc_entries(rest, off);
        let et = enc_entries(tail, off + e0.len());
        assert(whole =~= e0 + et);
        lemma_enc_nonempty(k, off + p8);
        lemma_sub(b, pos, whole, p8, p8 + ek.len());
        assert(whole.subrange(p8, p8 + ek.len()) =~= ek);
        let c = s[se + 1];
        assert(s.subrange(se + 1, se + 2) =~= seq![c]);
        assert(placed(k, b, base, pos + p8, s, se + 1));
        lemma_dec_enc(k, b, base, pos + p8, s, se + 1);
        let p1 = pos + p8 + ek.len();
        lemma_sub(b, pos, whole, p8 + ek.len(), e0.len() as int);
        assert(whole.subrange(p8 + ek.len(), e0.len() as int) =~= ex);
        assert(placed(x, b, base, p1, s, se + 2));
        lemma_dec_enc(x, b, base, p1, s, se + 2);
        let p2 = pos + e0.len();
        lemma_sub(b, pos, whole, e0.len() as int, whole.len() as int);
        assert(whole.subrange(e0.len() as int, whole.len() as int) =~= et);
        assert forall|i: int| 0 <= i < acc.len() implies #[trigger] acc[i].0 != k by {
            assert(acc[i].0 != rest[0].0);
        }
        lemma_key_index_absent(acc, k);
        assert(dict_insert(acc, k, x) == acc.push((k, x)));
        let acc2 = acc.push((k, x));
        assert forall|i: int| 0 <= i < tail.len() implies well_formed(#[trigger] tail[i].0) && sig_of(tail[i].0)
            == seq![s[se + 1]] && well_formed(tail[i].1) && sig_of(tail[i].1) == s.subrange(se + 2, se + 2 + vl) by {
            assert(tail[i] == rest[i + 1]);
        }
        assert forall|i: int, j: int| 0 <= i < j < tail.len() implies tail[i].0 != tail[j].0 by {
            assert(tail[i] == rest[i + 1] && tail[j] == rest[j + 1]);
        }
        assert forall|i: int, j: int| 0 <= i < acc2.len() && 0 <= j < tail.len() implies acc2[i].0 != tail[j].0 by {
            assert(tail[j] == rest[j + 1]);
            if i < acc.len() {
                assert(acc2[i] == acc[i]);
            } else {
                assert(acc2[i] == rest[0]);
            }
        }
        lemma_dec_entries(tail, acc2, b, base, p2, end, s, se, vl);
        assert(acc2 + tail =~= acc + rest);
    }
}

} // verus!
