//! Demarshalling: decoding values from wire bytes, driven by a signature.
//!
//! `dec` and its companions are the model of the decoder: a parser over the
//! whole byte sequence `b` whose first byte sits at absolute offset `base`,
//! reading at position `pos`, and over the signature `s` at index `sp`.
use vstd::prelude::*;
use vstd::string::*;
use vstd::utf8::{decode_utf8, valid_utf8};
use crate::marshal::{align_of, pad_len};
use crate::value::{
    distinct_keys, Array, BasicValue, Dictionary, Path, Signature, Struct, Val, Value, Variant, views, entry_views,
    lemma_views, lemma_entry_views,
};

verus! {

/// Why decoding failed.
#[derive(Debug, Clone, Copy, PartialEq, Eq, Structural)]
pub enum DemarshalError {
    MessageTooShort,
    CorruptedMessage,
    BadUTF8,
    BadSignature,
    ElementTooBig,
    MismatchedParens,
}

/// The alignment of the type whose signature starts with `sig`.
pub fn get_alignment(sig: char) -> (r: usize)
    ensures
        r == align_of(sig),
{
    match sig {
        'n' | 'q' => 2,
        'i' | 'u' | 's' | 'o' | 'a' => 4,
        'x' | 't' | 'd' | '(' | '{' => 8,
        _ => 1,
    }
}

/// The largest array body, in bytes, that is accepted.
pub const MAX_ARRAY_LEN: u64 = 0x4000000;

/// The unsigned number whose little-endian bytes are `s`.
pub open spec fn from_le(s: Seq<u8>) -> nat
    decreases s.len(),
{
    if s.len() == 0 {
        0
    } else {
        s[0] as nat + 256 * from_le(s.subrange(1, s.len() as int))
    }
}

/// The type codes that may key a dictionary.
pub open spec fn is_basic_code(c: char) -> bool {
    c == 'y' || c == 'b' || c == 'n' || c == 'q' || c == 'i' || c == 'u' || c == 'x' || c
        == 't' || c == 'd' || c == 's' || c == 'o' || c == 'g'
}

/// The type codes that may key a dictionary of this value model (a double
/// cannot be a key).
pub open spec fn is_key_code(c: char) -> bool {
    is_basic_code(c) && c != 'd'
}

/// The index just after the single complete type that starts at `s[i]`.
pub open spec fn type_end(s: Seq<char>, i: int) -> Result<int, DemarshalError>
    decreases s.len() - i, 0int,
{
    if i < 0 || i >= s.len() {
        Err(DemarshalError::BadSignature)
    } else {
        let c = s[i];
        if is_basic_code(c) || c == 'v' {
            Ok(i + 1)
        } else if c == 'a' {
            type_end(s, i + 1)
        } else if c == '(' {
            fields_end(s, i + 1, true)
        } else if c == '{' {
            if i + 1 < s.len() && is_key_code(s[i + 1]) {
                match type_end(s, i + 2) {
                    Ok(j) => if j < s.len() && s[j] == '}' {
                        Ok(j + 1)
                    } else {
                        Err(DemarshalError::MismatchedParens)
                    },
                    Err(e) => Err(e),
                }
            } else {
                Err(DemarshalError::BadSignature)
            }
        } else {
            Err(DemarshalError::BadSignature)
        }
    }
}

/// The index just after the `)` that closes the struct whose fields start at `s[i]`.
pub open spec fn fields_end(s: Seq<char>, i: int, first: bool) -> Result<int, DemarshalError>
    decreases s.len() - i, 1int,
{
    if i < 0 || i >= s.len() {
        Err(DemarshalError::MismatchedParens)
    } else if s[i] == ')' {
        if first {
            Err(DemarshalError::BadSignature)
        } else {
            Ok(i + 1)
        }
    } else {
        match type_end(s, i) {
            Ok(j) => if i < j <= s.len() {
                fields_end(s, j, false)
            } else {
                Err(DemarshalError::BadSignature)
            },
            Err(e) => Err(e),
        }
    }
}

/// `pos` moved on to the alignment `a` of the absolute offset.
pub open spec fn align_pos(b: Seq<u8>, base: int, pos: int, a: int) -> Result<int, DemarshalError> {
    let p = pos + pad_len(base + pos, a);
    if p > b.len() {
        Err(DemarshalError::MessageTooShort)
    } else {
        Ok(p)
    }
}

/// An aligned unsigned integer of `n` bytes, and the position after it.
pub open spec fn dec_uint(b: Seq<u8>, base: int, pos: int, n: int) -> Result<(nat, int), DemarshalError> {
    match align_pos(b, base, pos, n) {
        Ok(p) => if p + n > b.len() {
            Err(DemarshalError::MessageTooShort)
        } else {
            Ok((from_le(b.subrange(p, p + n)), p + n))
        },
        Err(e) => Err(e),
    }
}

/// A string whose byte count takes `n` bytes, and the position after its NUL.
pub open spec fn dec_str(b: Seq<u8>, base: int, pos: int, n: int) -> Result<(Seq<char>, int), DemarshalError> {
    match dec_uint(b, base, pos, n) {
        Ok((l, p)) => if p + l + 1 > b.len() {
            Err(DemarshalError::MessageTooShort)
        } else if b[p + l] != 0 {
            Err(DemarshalError::CorruptedMessage)
        } else if !valid_utf8(b.subrange(p, p + l)) {
            Err(DemarshalError::BadUTF8)
        } else {
            Ok((decode_utf8(b.subrange(p, p + l)), p + l + 1))
        },
        Err(e) => Err(e),
    }
}

/// The byte width of a fixed-size basic type.
pub open spec fn int_width(c: char) -> int {
    if c == 'y' {
        1
    } else if c == 'n' || c == 'q' {
        2
    } else if c == 'b' || c == 'i' || c == 'u' {
        4
    } else {
        8
    }
}

/// The value of a fixed-size basic type `c` read as the unsigned number `x`.
pub open spec fn int_val(c: char, x: nat) -> Result<Val, DemarshalError> {
    if c == 'y' {
        Ok(Val::Byte(x as u8))
    } else if c == 'b' {
        if x == 0 {
            Ok(Val::Boolean(false))
        } else if x == 1 {
            Ok(Val::Boolean(true))
        } else {
            Err(DemarshalError::CorruptedMessage)
        }
    } else if c == 'n' {
        Ok(Val::Int16((x as u16) as i16))
    } else if c == 'q' {
        Ok(Val::Uint16(x as u16))
    } else if c == 'i' {
        Ok(Val::Int32((x as u32) as i32))
    } else if c == 'u' {
        Ok(Val::Uint32(x as u32))
    } else if c == 'x' {
        Ok(Val::Int64((x as u64) as i64))
    } else if c == 't' {
        Ok(Val::Uint64(x as u64))
    } else {
        Ok(Val::Double(x as u64))
    }
}

/// A value of the basic type `c` (one of `is_basic_code`), and the position after it.
#[verifier::opaque]
pub open spec fn dec_basic(b: Seq<u8>, base: int, pos: int, c: char) -> Result<(Val, int), DemarshalError> {
    if c == 's' || c == 'o' || c == 'g' {
        match dec_str(b, base, pos, if c == 'g' { 1 } else { 4 }) {
            Ok((t, p)) => Ok(
                (if c == 's' {
                    Val::Str(t)
                } else if c == 'o' {
                    Val::ObjectPath(t)
                } else {
                    Val::Sig(t)
                }, p),
            ),
            Err(e) => Err(e),
        }
    } else {
        match dec_uint(b, base, pos, int_width(c)) {
            Ok((x, p)) => match int_val(c, x) {
                Ok(v) => Ok((v, p)),
                Err(e) => Err(e),
            },
            Err(e) => Err(e),
        }
    }
}

/// The index in `es` of the entry keyed `k`, or -1.
pub open spec fn key_index(es: Seq<(Val, Val)>, k: Val) -> int
    decreases es.len(),
{
    if es.len() == 0 {
        -1
    } else if es.last().0 == k {
        es.len() - 1
    } else {
        key_index(es.drop_last(), k)
    }
}

/// `es` with the entry `(k, v)` put in: a later entry with a key already
/// present replaces that entry's value in place.
pub open spec fn dict_insert(es: Seq<(Val, Val)>, k: Val, v: Val) -> Seq<(Val, Val)> {
    let i = key_index(es, k);
    if i >= 0 {
        es.update(i, (k, v))
    } else {
        es.push((k, v))
    }
}

/// Decodes one value of the type at `s[sp]`: the value, the byte position
/// after it and the signature index after its type.
pub open spec fn dec(b: Seq<u8>, base: int, pos: int, s: Seq<char>, sp: int) -> Result<(Val, int, int), DemarshalError>
    decreases b.len() - pos, s.len() - sp, 1int,
{
    if sp < 0 || sp >= s.len() {
        Err(DemarshalError::BadSignature)
    } else if pos < 0 || pos > b.len() {
        Err(DemarshalError::MessageTooShort)
    } else {
        let c = s[sp];
        if is_basic_code(c) {
            match dec_basic(b, base, pos, c) {
                Ok((v, p)) => Ok((v, p, sp + 1)),
                Err(e) => Err(e),
            }
        } else if c == 'v' {
            dec_variant(b, base, pos, s, sp)
        } else if c == 'a' {
            dec_array(b, base, pos, s, sp)
        } else if c == '(' || c == '{' {
            dec_struct(b, base, pos, s, sp)
        } else {
            Err(DemarshalError::BadSignature)
        }
    }
}

/// A variant: its signature, then one value of that signature.
pub open spec fn dec_variant(b: Seq<u8>, base: int, pos: int, s: Seq<char>, sp: int) -> Result<(Val, int, int), DemarshalError>
    decreases b.len() - pos, s.len() - sp, 0int,
{
    match dec_str(b, base, pos, 1) {
        Ok((g, p)) => match type_end(g, 0) {
            Ok(e) => if e != g.len() {
                Err(DemarshalError::BadSignature)
            } else if p <= pos {
                Err(DemarshalError::CorruptedMessage)
            } else {
                match dec(b, base, p, g, 0) {
                    Ok((v, p2, _)) => Ok((Val::Variant(g, Box::new(v)), p2, sp + 1)),
                    Err(e) => Err(e),
                }
            },
            Err(e) => Err(e),
        },
        Err(e) => Err(e),
    }
}

/// An array (or dictionary) whose `a` is at `s[sp]`: the aligned byte length,
/// padding to the element alignment, then the elements.
pub open spec fn dec_array(b: Seq<u8>, base: int, pos: int, s: Seq<char>, sp: int) -> Result<(Val, int, int), DemarshalError>
    decreases b.len() - pos, s.len() - sp, 0int,
{
    match type_end(s, sp + 1) {
        Ok(se) => match dec_uint(b, base, pos, 4) {
            Ok((l, p)) => if l > MAX_ARRAY_LEN {
                Err(DemarshalError::ElementTooBig)
            } else if p <= pos {
                Err(DemarshalError::CorruptedMessage)
            } else {
                match align_pos(b, base, p, align_of(s[sp + 1])) {
                    Ok(q) => if q + l > b.len() {
                        Err(DemarshalError::MessageTooShort)
                    } else if s[sp + 1] == '{' {
                        match dec_entries(b, base, q, q + l, s, sp + 1, Seq::empty()) {
                            Ok((es, e)) => Ok((Val::Dict(s.subrange(sp, se), es), e, se)),
                            Err(e) => Err(e),
                        }
                    } else {
                        match dec_elems(b, base, q, q + l, s, sp + 1, Seq::empty()) {
                            Ok((vs, e)) => Ok((Val::Array(s.subrange(sp, se), vs), e, se)),
                            Err(e) => Err(e),
                        }
                    },
                    Err(e) => Err(e),
                }
            },
            Err(e) => Err(e),
        },
        Err(e) => Err(e),
    }
}

/// A struct (or dictionary entry) whose `(` is at `s[sp]`: 8-aligned fields.
pub open spec fn dec_struct(b: Seq<u8>, base: int, pos: int, s: Seq<char>, sp: int) -> Result<(Val, int, int), DemarshalError>
    decreases b.len() - pos, s.len() - sp, 0int,
{
    match align_pos(b, base, pos, 8) {
        Ok(p) => if p < pos || sp < 0 || sp >= s.len() {
            Err(DemarshalError::CorruptedMessage)
        } else {
            match dec_fields(b, base, p, s, sp + 1, closer(s[sp]), true, Seq::empty()) {
                Ok((fs, p2, q)) => Ok((Val::Struct(s.subrange(sp, q), fs), p2, q)),
                Err(e) => Err(e),
            }
        },
        Err(e) => Err(e),
    }
}

/// The bracket that closes the one `open`s: `}` for `{`, else `)`.
pub open spec fn closer(open: char) -> char {
    if open == '{' {
        '}'
    } else {
        ')'
    }
}

/// Decodes struct fields from `s[sp]` up to the bracket `close`, after the
/// fields `acc` already decoded; the other closing bracket there is a
/// mismatch.
pub open spec fn dec_fields(
    b: Seq<u8>,
    base: int,
    pos: int,
    s: Seq<char>,
    sp: int,
    close: char,
    first: bool,
    acc: Seq<Val>,
) -> Result<(Seq<Val>, int, int), DemarshalError>
    decreases b.len() - pos, s.len() - sp, 2int,
{
    if sp < 0 || sp >= s.len() {
        Err(DemarshalError::MismatchedParens)
    } else if pos < 0 || pos > b.len() {
        Err(DemarshalError::MessageTooShort)
    } else if s[sp] == ')' || s[sp] == '}' {
        if s[sp] != close {
            Err(DemarshalError::MismatchedParens)
        } else if first {
            Err(DemarshalError::BadSignature)
        } else {
            Ok((acc, pos, sp + 1))
        }
    } else {
        match dec(b, base, pos, s, sp) {
            Ok((v, p, q)) => if p < pos || p > b.len() || q <= sp || q > s.len() {
                Err(DemarshalError::BadSignature)
            } else {
                dec_fields(b, base, p, s, q, close, false, acc.push(v))
            },
            Err(e) => Err(e),
        }
    }
}

/// Decodes array elements of the type at `s[se]` while `pos < end`, after
/// the elements `acc` already decoded.
pub open spec fn dec_elems(
    b: Seq<u8>,
    base: int,
    pos: int,
    end: int,
    s: Seq<char>,
    se: int,
    acc: Seq<Val>,
) -> Result<(Seq<Val>, int), DemarshalError>
    decreases b.len() - pos, s.len() - se, 2int,
{
    if pos < 0 || pos > b.len() {
        Err(DemarshalError::MessageTooShort)
    } else if pos >= end {
        Ok((acc, pos))
    } else {
        match dec(b, base, pos, s, se) {
            Ok((v, p, _)) => if p <= pos || p > b.len() {
                Err(DemarshalError::CorruptedMessage)
            } else {
                dec_elems(b, base, p, end, s, se, acc.push(v))
            },
            Err(e) => Err(e),
        }
    }
}

/// Decodes dictionary entries of the type `{KV}` at `s[se]` while `pos < end`,
/// putting each into `acc`.
pub open spec fn dec_entries(
    b: Seq<u8>,
    base: int,
    pos: int,
    end: int,
    s: Seq<char>,
    se: int,
    acc: Seq<(Val, Val)>,
) -> Result<(Seq<(Val, Val)>, int), DemarshalError>
    decreases b.len() - pos, s.len() - se, 2int,
{
    if pos < 0 || pos > b.len() {
        Err(DemarshalError::MessageTooShort)
    } else if pos >= end {
        Ok((acc, pos))
    } else if se + 1 >= s.len() || !is_key_code(s[se + 1]) {
        Err(DemarshalError::BadSignature)
    } else {
        match align_pos(b, base, pos, 8) {
            Ok(p0) => match dec_basic(b, base, p0, s[se + 1]) {
                Ok((k, p1)) => if p1 < pos || p1 > b.len() {
                    Err(DemarshalError::CorruptedMessage)
                } else {
                    match dec(b, base, p1, s, se + 2) {
                        Ok((v, p2, _)) => if p2 <= pos || p2 > b.len() {
                            Err(DemarshalError::CorruptedMessage)
                        } else {
                            dec_entries(b, base, p2, end, s, se, dict_insert(acc, k, v))
                        },
                        Err(e) => Err(e),
                    }
                },
                Err(e) => Err(e),
            },
            Err(e) => Err(e),
        }
    }
}

/// 256 to the power `k`.
pub open spec fn pow256(k: nat) -> nat
    decreases k,
{
    if k == 0 {
        1
    } else {
        256 * pow256((k - 1) as nat)
    }
}

proof fn lemma_pow256_bound(k: nat)
    requires
        k <= 8,
    ensures
        pow256(k) <= 0x1_0000_0000_0000_0000,
    decreases 8 - k,
{
    if k < 8 {
        lemma_pow256_bound(k + 1);
    } else {
        reveal_with_fuel(pow256, 9);
    }
}

/// Relies on `String::from_utf8`: it succeeds exactly on valid UTF-8, and then
/// holds the characters that the bytes encode.
#[verifier::external_body]
pub(crate) fn string_from_utf8(v: Vec<u8>) -> (r: Option<String>)
    ensures
        r is Some <==> valid_utf8(v@),
        r is Some ==> r->Some_0@ == decode_utf8(v@),
{
    String::from_utf8(v).ok()
}

pub open spec fn uint_res(r: Result<(u64, usize), DemarshalError>) -> Result<(nat, int), DemarshalError> {
    match r {
        Ok((x, p)) => Ok((x as nat, p as int)),
        Err(e) => Err(e),
    }
}

pub open spec fn pos_res(r: Result<usize, DemarshalError>) -> Result<int, DemarshalError> {
    match r {
        Ok(p) => Ok(p as int),
        Err(e) => Err(e),
    }
}

pub open spec fn str_res(r: Result<(String, usize), DemarshalError>) -> Result<(Seq<char>, int), DemarshalError> {
    match r {
        Ok((t, p)) => Ok((t@, p as int)),
        Err(e) => Err(e),
    }
}

pub open spec fn basic_res(r: Result<(BasicValue, usize), DemarshalError>) -> Result<(Val, int), DemarshalError> {
    match r {
        Ok((v, p)) => Ok((v.view(), p as int)),
        Err(e) => Err(e),
    }
}

pub open spec fn val_res(r: Result<(Value, usize, usize), DemarshalError>) -> Result<(Val, int, int), DemarshalError> {
    match r {
        Ok((v, p, q)) => Ok((v@, p as int, q as int)),
        Err(e) => Err(e),
    }
}

/// The unsigned number held little-endian in `b[pos..pos + n]`.
fn read_uint(b: &[u8], pos: usize, n: usize) -> (r: u64)
    requires
        pos + n <= b@.len(),
        n <= 8,
    ensures
        r as nat == from_le(b@.subrange(pos as int, pos + n)),
{
    let _blen = b.len();
    let mut v: u64 = 0;
    let mut i: usize = n;
    proof {
        lemma_pow256_bound(n as nat);
    }
    while i > 0
        invariant
            i <= n <= 8,
            pos + n <= b@.len() <= usize::MAX,
            v as nat == from_le(b@.subrange(pos + i, pos + n)),
            v < pow256((n - i) as nat),
        decreases i,
    {
        let ghost sub = b@.subrange(pos + i - 1, pos + n);
        assert(sub.subrange(1, sub.len() as int) =~= b@.subrange(pos + i, pos + n));
        proof {
            lemma_pow256_bound((n - i + 1) as nat);
        }
        v = v * 256 + b[pos + i - 1] as u64;
        i -= 1;
    }
    assert(b@.subrange(pos + i, pos + n) =~= b@.subrange(pos as int, pos + n));
    v
}

/// Moves `pos` on to the alignment `align` of the absolute offset `base + pos`.
pub fn align_to(b: &[u8], base: usize, pos: usize, align: usize) -> (r: Result<usize, DemarshalError>)
    requires
        align == 1 || align == 2 || align == 4 || align == 8,
        pos <= b@.len(),
        base + b@.len() <= usize::MAX,
    ensures
        pos_res(r) == align_pos(b@, base as int, pos as int, align as int),
{
    let off = base + pos;
    let delta = (align - off % align) % align;
    if delta > b.len() - pos {
        Err(DemarshalError::MessageTooShort)
    } else {
        Ok(pos + delta)
    }
}

fn dm_uint(b: &[u8], base: usize, pos: usize, n: usize) -> (r: Result<(u64, usize), DemarshalError>)
    requires
        n == 1 || n == 2 || n == 4 || n == 8,
        pos <= b@.len(),
        base + b@.len() <= usize::MAX,
    ensures
        uint_res(r) == dec_uint(b@, base as int, pos as int, n as int),
        r matches Ok((_, p)) ==> pos < p <= b@.len(),
{
    match align_to(b, base, pos, n) {
        Ok(p) => if n > b.len() - p {
            Err(DemarshalError::MessageTooShort)
        } else {
            Ok((read_uint(b, p, n), p + n))
        },
        Err(e) => Err(e),
    }
}

/// The bytes `b[from..to]` as a vector.
fn copy_range(b: &[u8], from: usize, to: usize) -> (r: Vec<u8>)
    requires
        from <= to <= b@.len(),
    ensures
        r@ == b@.subrange(from as int, to as int),
{
    let mut r: Vec<u8> = Vec::new();
    let mut i: usize = from;
    while i < to
        invariant
            from <= i <= to <= b@.len(),
            r@ =~= b@.subrange(from as int, i as int),
        decreases to - i,
    {
        r.push(b[i]);
        i += 1;
        assert(r@ =~= b@.subrange(from as int, i as int));
    }
    r
}

fn dm_str(b: &[u8], base: usize, pos: usize, n: usize) -> (r: Result<(String, usize), DemarshalError>)
    requires
        n == 1 || n == 4,
        pos <= b@.len(),
        base + b@.len() <= usize::MAX,
    ensures
        str_res(r) == dec_str(b@, base as int, pos as int, n as int),
        r matches Ok((_, p)) ==> pos < p <= b@.len(),
{
    match dm_uint(b, base, pos, n) {
        Ok((l, p)) => {
            if l >= (b.len() - p) as u64 {
                Err(DemarshalError::MessageTooShort)
            } else {
                let l = l as usize;
                if b[p + l] != 0 {
                    Err(DemarshalError::CorruptedMessage)
                } else {
                    match string_from_utf8(copy_range(b, p, p + l)) {
                        Some(t) => Ok((t, p + l + 1)),
                        None => Err(DemarshalError::BadUTF8),
                    }
                }
            }
        },
        Err(e) => Err(e),
    }
}

/// Whether `c` is the code of a basic type.
fn is_basic_char(c: char) -> (r: bool)
    ensures
        r == is_basic_code(c),
{
    c == 'y' || c == 'b' || c == 'n' || c == 'q' || c == 'i' || c == 'u' || c == 'x' || c == 't'
        || c == 'd' || c == 's' || c == 'o' || c == 'g'
}

fn dm_basic(b: &[u8], base: usize, pos: usize, c: char) -> (r: Result<(BasicValue, usize), DemarshalError>)
    requires
        is_basic_code(c),
        c != 'd',
        pos <= b@.len(),
        base + b@.len() <= usize::MAX,
    ensures
        basic_res(r) == dec_basic(b@, base as int, pos as int, c),
        r matches Ok((_, p)) ==> pos < p <= b@.len(),
{
    proof {
        reveal(dec_basic);
    }
    if c == 's' || c == 'o' || c == 'g' {
        match dm_str(b, base, pos, if c == 'g' { 1 } else { 4 }) {
            Ok((t, p)) => Ok(
                (if c == 's' {
                    BasicValue::String(t)
                } else if c == 'o' {
                    BasicValue::ObjectPath(Path(t))
                } else {
                    BasicValue::Signature(Signature(t))
                }, p),
            ),
            Err(e) => Err(e),
        }
    } else {
        let w: usize = if c == 'y' {
            1
        } else if c == 'n' || c == 'q' {
            2
        } else if c == 'b' || c == 'i' || c == 'u' {
            4
        } else {
            8
        };
        match dm_uint(b, base, pos, w) {
            Ok((x, p)) => {
                if c == 'y' {
                    Ok((BasicValue::Byte(x as u8), p))
                } else if c == 'b' {
                    if x == 0 {
                        Ok((BasicValue::Boolean(false), p))
                    } else if x == 1 {
                        Ok((BasicValue::Boolean(true), p))
                    } else {
                        Err(DemarshalError::CorruptedMessage)
                    }
                } else if c == 'n' {
                    Ok((BasicValue::Int16(#[verifier::truncate] ((#[verifier::truncate] (x as u16)) as i16)), p))
                } else if c == 'q' {
                    Ok((BasicValue::Uint16(x as u16), p))
                } else if c == 'i' {
                    Ok((BasicValue::Int32(#[verifier::truncate] ((#[verifier::truncate] (x as u32)) as i32)), p))
                } else if c == 'u' {
                    Ok((BasicValue::Uint32(x as u32), p))
                } else if c == 'x' {
                    Ok((BasicValue::Int64(#[verifier::truncate] (x as i64)), p))
                } else {
                    Ok((BasicValue::Uint64(x), p))
                }
            },
            Err(e) => Err(e),
        }
    }
}


fn is_key_char(c: char) -> (r: bool)
    ensures
        r == is_key_code(c),
{
    is_basic_char(c) && c != 'd'
}

/// The index just after the single complete type that starts at `s[i]`.
fn sig_type_end(s: &str, i: usize) -> (r: Result<usize, DemarshalError>)
    ensures
        pos_res(r) == type_end(s@, i as int),
        r matches Ok(j) ==> i < j <= s@.len(),
    decreases s@.len() - i, 0int,
{
    let n = s.unicode_len();
    if i >= n {
        return Err(DemarshalError::BadSignature);
    }
    let c = s.get_char(i);
    if is_basic_char(c) || c == 'v' {
        Ok(i + 1)
    } else if c == 'a' {
        sig_type_end(s, i + 1)
    } else if c == '(' {
        sig_fields_end(s, i + 1, true)
    } else if c == '{' {
        if i + 1 < n && is_key_char(s.get_char(i + 1)) {
            match sig_type_end(s, i + 2) {
                Ok(j) => if j < n && s.get_char(j) == '}' {
                    Ok(j + 1)
                } else {
                    Err(DemarshalError::MismatchedParens)
                },
                Err(e) => Err(e),
            }
        } else {
            Err(DemarshalError::BadSignature)
        }
    } else {
        Err(DemarshalError::BadSignature)
    }
}

fn sig_fields_end(s: &str, i: usize, first: bool) -> (r: Result<usize, DemarshalError>)
    ensures
        pos_res(r) == fields_end(s@, i as int, first),
        r matches Ok(j) ==> i < j <= s@.len(),
    decreases s@.len() - i, 1int,
{
    let n = s.unicode_len();
    if i >= n {
        Err(DemarshalError::MismatchedParens)
    } else if s.get_char(i) == ')' {
        if first {
            Err(DemarshalError::BadSignature)
        } else {
            Ok(i + 1)
        }
    } else {
        match sig_type_end(s, i) {
            Ok(j) => sig_fields_end(s, j, false),
            Err(e) => Err(e),
        }
    }
}

/// Whether two basic values are the same.
pub(crate) fn basic_eq(a: &BasicValue, b: &BasicValue) -> (r: bool)
    ensures
        r == (a.view() == b.view()),
{
    match (a, b) {
        (BasicValue::Byte(x), BasicValue::Byte(y)) => *x == *y,
        (BasicValue::Boolean(x), BasicValue::Boolean(y)) => *x == *y,
        (BasicValue::Int16(x), BasicValue::Int16(y)) => *x == *y,
        (BasicValue::Uint16(x), BasicValue::Uint16(y)) => *x == *y,
        (BasicValue::Int32(x), BasicValue::Int32(y)) => *x == *y,
        (BasicValue::Uint32(x), BasicValue::Uint32(y)) => *x == *y,
        (BasicValue::Int64(x), BasicValue::Int64(y)) => *x == *y,
        (BasicValue::Uint64(x), BasicValue::Uint64(y)) => *x == *y,
        (BasicValue::String(x), BasicValue::String(y)) => *x == *y,
        (BasicValue::ObjectPath(x), BasicValue::ObjectPath(y)) => x.0 == y.0,
        (BasicValue::Signature(x), BasicValue::Signature(y)) => x.0 == y.0,
        _ => false,
    }
}

/// The index of the last entry of `es` keyed `k`, if any.
fn find_key(es: &Vec<(BasicValue, Value)>, k: &BasicValue) -> (r: Option<usize>)
    ensures
        match r {
            Some(i) => i < es@.len() && key_index(entry_views(es@, es@.len()), k.view()) == i,
            None => key_index(entry_views(es@, es@.len()), k.view()) == -1,
        },
{
    let ghost ev = entry_views(es@, es@.len());
    proof {
        lemma_entry_views(es@, es@.len());
    }
    let n = es.len();
    let mut i: usize = n;
    assert(ev.subrange(0, n as int) =~= ev);
    while i > 0
        invariant
            i <= n == es@.len(),
            ev == entry_views(es@, n as nat),
            ev.len() == n,
            forall|j: int| 0 <= j < n ==> #[trigger] ev[j] == (es@[j].0.view(), es@[j].1@),
            key_index(ev, k.view()) == key_index(ev.subrange(0, i as int), k.view()),
        decreases i,
    {
        let ghost pre = ev.subrange(0, i as int);
        assert(pre.drop_last() =~= ev.subrange(0, i - 1));
        if basic_eq(&es[i - 1].0, k) {
            assert(pre.last() == ev[i - 1]);
            return Some(i - 1);
        }
        i -= 1;
    }
    None
}

proof fn lemma_key_index_found(es: Seq<(Val, Val)>, k: Val)
    requires
        key_index(es, k) >= 0,
    ensures
        key_index(es, k) < es.len(),
        es[key_index(es, k)].0 == k,
    decreases es.len(),
{
    if es.len() > 0 && es.last().0 != k {
        lemma_key_index_found(es.drop_last(), k);
    }
}

proof fn lemma_key_index_none(es: Seq<(Val, Val)>, k: Val)
    requires
        key_index(es, k) == -1,
    ensures
        forall|i: int| 0 <= i < es.len() ==> #[trigger] es[i].0 != k,
    decreases es.len(),
{
    if es.len() > 0 {
        lemma_key_index_none(es.drop_last(), k);
        assert forall|i: int| 0 <= i < es.len() implies #[trigger] es[i].0 != k by {
            if i < es.len() - 1 {
                assert(es.drop_last()[i] == es[i]);
            }
        }
    }
}

/// Puts the entry `(k, v)` into `es`, replacing the value of an entry with
/// the same key.
fn insert_entry(es: &mut Vec<(BasicValue, Value)>, k: BasicValue, v: Value)
    requires
        distinct_keys(old(es)@),
    ensures
        distinct_keys(final(es)@),
        entry_views(final(es)@, final(es)@.len()) == dict_insert(
            entry_views(old(es)@, old(es)@.len()),
            k.view(),
            v@,
        ),
{
    let ghost ev = entry_views(es@, es@.len());
    let ghost kv = k.view();
    let ghost vv = v@;
    let ghost old_es = es@;
    proof {
        lemma_entry_views(es@, es@.len());
    }
    match find_key(es, &k) {
        Some(i) => {
            es[i] = (k, v);
            proof {
                lemma_entry_views(es@, es@.len());
                let nv = entry_views(es@, es@.len());
                assert(es@ == old_es.update(i as int, es@[i as int]));
                assert forall|j: int| 0 <= j < nv.len() implies nv[j] == ev.update(
                    i as int,
                    (kv, vv),
                )[j] by {
                    if j != i {
                        assert(es@[j] == old_es[j]);
                    }
                }
                assert(nv =~= dict_insert(ev, kv, vv));
                assert forall|a: int, b: int| 0 <= a < b < es@.len() implies es@[a].0.view() != es@[b].0.view() by {
                    assert(nv[a].0 == ev[a].0 || a == i);
                    assert(nv[b].0 == ev[b].0 || b == i);
                    lemma_key_index_found(ev, kv);
                    assert(ev[i as int].0 == kv);
                }
            }
        },
        None => {
            proof {
                lemma_key_index_none(ev, kv);
            }
            es.push((k, v));
            proof {
                lemma_entry_views(es@, es@.len());
                assert(entry_views(es@, es@.len()) =~= dict_insert(ev, kv, vv));
                assert forall|a: int, b: int| 0 <= a < b < es@.len() implies es@[a].0.view() != es@[b].0.view() by {
                    if b == es@.len() - 1 {
                        assert(ev[a].0 != kv);
                    } else {
                        assert(es@[a] == old_es[a] && es@[b] == old_es[b]);
                    }
                }
            }
        },
    }
}

pub open spec fn elems_res(r: Result<(Vec<Value>, usize), DemarshalError>) -> Result<(Seq<Val>, int), DemarshalError> {
    match r {
        Ok((vs, p)) => Ok((views(vs@, vs@.len()), p as int)),
        Err(e) => Err(e),
    }
}

pub open spec fn entries_res(r: Result<(Vec<(BasicValue, Value)>, usize), DemarshalError>) -> Result<(Seq<(Val, Val)>, int), DemarshalError> {
    match r {
        Ok((es, p)) => Ok((entry_views(es@, es@.len()), p as int)),
        Err(e) => Err(e),
    }
}

pub open spec fn fields_res(r: Result<(Vec<Value>, usize, usize), DemarshalError>) -> Result<(Seq<Val>, int, int), DemarshalError> {
    match r {
        Ok((vs, p, q)) => Ok((views(vs@, vs@.len()), p as int, q as int)),
        Err(e) => Err(e),
    }
}

/// Decodes one value of the type at `s[sp]` from `b[pos..]`, where `b[0]`
/// sits at absolute offset `base`.
pub(crate) fn dm(b: &[u8], base: usize, pos: usize, s: &str, sp: usize) -> (r: Result<(Value, usize, usize), DemarshalError>)
    requires
        base + b@.len() <= usize::MAX,
    ensures
        val_res(r) == dec(b@, base as int, pos as int, s@, sp as int),
        r matches Ok((_, p, q)) ==> pos <= p <= b@.len() && sp < q <= s@.len(),
    decreases b@.len() - pos, s@.len() - sp, 1int,
{
    let n = s.unicode_len();
    if sp >= n {
        return Err(DemarshalError::BadSignature);
    }
    if pos > b.len() {
        return Err(DemarshalError::MessageTooShort);
    }
    let c = s.get_char(sp);
    if c == 'd' {
        proof {
            reveal(dec_basic);
        }
        match dm_uint(b, base, pos, 8) {
            Ok((x, p)) => Ok((Value::Double(x), p, sp + 1)),
            Err(e) => Err(e),
        }
    } else if is_basic_char(c) {
        match dm_basic(b, base, pos, c) {
            Ok((v, p)) => Ok((Value::BasicValue(v), p, sp + 1)),
            Err(e) => Err(e),
        }
    } else if c == 'v' {
        dm_variant(b, base, pos, s, sp)
    } else if c == 'a' {
        dm_array(b, base, pos, s, sp)
    } else if c == '(' || c == '{' {
        dm_struct(b, base, pos, s, sp)
    } else {
        Err(DemarshalError::BadSignature)
    }
}

/// Decodes a variant: its signature, then one value of that signature.
fn dm_variant(b: &[u8], base: usize, pos: usize, s: &str, sp: usize) -> (r: Result<(Value, usize, usize), DemarshalError>)
    requires
        base + b@.len() <= usize::MAX,
        pos <= b@.len(),
        sp < s@.len(),
    ensures
        val_res(r) == dec_variant(b@, base as int, pos as int, s@, sp as int),
        r matches Ok((_, p, q)) ==> pos <= p <= b@.len() && q == sp + 1,
    decreases b@.len() - pos, s@.len() - sp, 0int,
{
    let _n = s.unicode_len();
    match dm_str(b, base, pos, 1) {
        Ok((g, p)) => match sig_type_end(g.as_str(), 0) {
            Ok(e) => if e != g.as_str().unicode_len() {
                Err(DemarshalError::BadSignature)
            } else {
                match dm(b, base, p, g.as_str(), 0) {
                    Ok((v, p2, _)) => Ok(
                        (
                            Value::Variant(Variant { object: Box::new(v), signature: Signature(g) }),
                            p2,
                            sp + 1,
                        ),
                    ),
                    Err(e) => Err(e),
                }
            },
            Err(e) => Err(e),
        },
        Err(e) => Err(e),
    }
}

/// Decodes a struct (or dictionary entry) whose `(` is at `s[sp]`.
fn dm_struct(b: &[u8], base: usize, pos: usize, s: &str, sp: usize) -> (r: Result<(Value, usize, usize), DemarshalError>)
    requires
        base + b@.len() <= usize::MAX,
        pos <= b@.len(),
        sp < s@.len(),
    ensures
        val_res(r) == dec_struct(b@, base as int, pos as int, s@, sp as int),
        r matches Ok((_, p, q)) ==> pos <= p <= b@.len() && sp < q <= s@.len(),
    decreases b@.len() - pos, s@.len() - sp, 0int,
{
    let _n = s.unicode_len();
    match align_to(b, base, pos, 8) {
        Ok(p) => match dm_fields(b, base, p, s, sp + 1, if s.get_char(sp) == '{' { '}' } else { ')' }) {
            Ok((fs, p2, q)) => {
                let sig = s.substring_char(sp, q).to_owned();
                let r = Value::Struct(Struct { objects: fs, signature: Signature(sig) });
                Ok((r, p2, q))
            },
            Err(e) => Err(e),
        },
        Err(e) => Err(e),
    }
}

/// Decodes an array or dictionary whose `a` is at `s[sp]`.
fn dm_array(b: &[u8], base: usize, pos: usize, s: &str, sp: usize) -> (r: Result<(Value, usize, usize), DemarshalError>)
    requires
        base + b@.len() <= usize::MAX,
        pos <= b@.len(),
        sp < s@.len(),
        s@[sp as int] == 'a',
    ensures
        val_res(r) == dec_array(b@, base as int, pos as int, s@, sp as int),
        r matches Ok((_, p, q)) ==> pos <= p <= b@.len() && sp < q <= s@.len(),
    decreases b@.len() - pos, s@.len() - sp, 0int,
{
    let _n = s.unicode_len();
    let se = match sig_type_end(s, sp + 1) {
        Ok(se) => se,
        Err(e) => return Err(e),
    };
    let (l, p) = match dm_uint(b, base, pos, 4) {
        Ok(t) => t,
        Err(e) => return Err(e),
    };
    if l > MAX_ARRAY_LEN {
        return Err(DemarshalError::ElementTooBig);
    }
    let et = s.get_char(sp + 1);
    let q = match align_to(b, base, p, get_alignment(et)) {
        Ok(q) => q,
        Err(e) => return Err(e),
    };
    if l > (b.len() - q) as u64 {
        return Err(DemarshalError::MessageTooShort);
    }
    let end = q + l as usize;
    let sig = s.substring_char(sp, se).to_owned();
    if et == '{' {
        match dm_entries(b, base, q, end, s, sp + 1) {
            Ok((es, e)) => Ok((Value::Dictionary(Dictionary::from_distinct(es, Signature(sig))), e, se)),
            Err(e) => Err(e),
        }
    } else {
        match dm_elems(b, base, q, end, s, sp + 1) {
            Ok((vs, e)) => Ok((Value::Array(Array { objects: vs, signature: Signature(sig) }), e, se)),
            Err(e) => Err(e),
        }
    }
}

/// Decodes struct fields from `s[sp]` up to the closing `)` or `}`.
fn dm_fields(b: &[u8], base: usize, pos: usize, s: &str, sp: usize, close: char) -> (r: Result<(Vec<Value>, usize, usize), DemarshalError>)
    requires
        base + b@.len() <= usize::MAX,
    ensures
        fields_res(r) == dec_fields(b@, base as int, pos as int, s@, sp as int, close, true, Seq::empty()),
        r matches Ok((_, p, q)) ==> pos <= p <= b@.len() && sp < q <= s@.len(),
    decreases b@.len() - pos, s@.len() - sp, 2int,
{
    let n = s.unicode_len();
    let mut acc: Vec<Value> = Vec::new();
    let ghost mut g: Seq<Val> = Seq::empty();
    let mut p = pos;
    let mut q = sp;
    let mut first = true;
    loop
        invariant
            n == s@.len(),
            base + b@.len() <= usize::MAX,
            pos <= p,
            sp <= q,
            first ==> p == pos && q == sp && g.len() == 0,
            g.len() == acc@.len(),
            forall|k: int| 0 <= k < g.len() ==> #[trigger] g[k] == acc@[k]@,
            dec_fields(b@, base as int, pos as int, s@, sp as int, close, true, Seq::empty())
                == dec_fields(b@, base as int, p as int, s@, q as int, close, first, g),
        decreases b@.len() - p, s@.len() - q,
    {
        if q >= n {
            return Err(DemarshalError::MismatchedParens);
        }
        if p > b.len() {
            return Err(DemarshalError::MessageTooShort);
        }
        let c = s.get_char(q);
        if c == ')' || c == '}' {
            if c != close {
                return Err(DemarshalError::MismatchedParens);
            }
            if first {
                return Err(DemarshalError::BadSignature);
            }
            proof {
                lemma_views(acc@, acc@.len());
                assert(views(acc@, acc@.len()) =~= g);
            }
            return Ok((acc, p, q + 1));
        }
        match dm(b, base, p, s, q) {
            Ok((v, p2, q2)) => {
                proof {
                    g = g.push(v@);
                }
                acc.push(v);
                p = p2;
                q = q2;
                first = false;
            },
            Err(e) => return Err(e),
        }
    }
}

/// Decodes array elements of the type at `s[se]` while `pos < end`.
fn dm_elems(b: &[u8], base: usize, pos: usize, end: usize, s: &str, se: usize) -> (r: Result<(Vec<Value>, usize), DemarshalError>)
    requires
        base + b@.len() <= usize::MAX,
        pos <= b@.len(),
    ensures
        elems_res(r) == dec_elems(b@, base as int, pos as int, end as int, s@, se as int, Seq::empty()),
        r matches Ok((_, p)) ==> pos <= p <= b@.len(),
    decreases b@.len() - pos, s@.len() - se, 2int,
{
    let mut acc: Vec<Value> = Vec::new();
    let ghost mut g: Seq<Val> = Seq::empty();
    let mut p = pos;
    loop
        invariant
            base + b@.len() <= usize::MAX,
            pos <= p <= b@.len(),
            g.len() == acc@.len(),
            forall|k: int| 0 <= k < g.len() ==> #[trigger] g[k] == acc@[k]@,
            dec_elems(b@, base as int, pos as int, end as int, s@, se as int, Seq::empty())
                == dec_elems(b@, base as int, p as int, end as int, s@, se as int, g),
        decreases b@.len() - p,
    {
        if p >= end {
            proof {
                lemma_views(acc@, acc@.len());
                assert(views(acc@, acc@.len()) =~= g);
            }
            return Ok((acc, p));
        }
        match dm(b, base, p, s, se) {
            Ok((v, p2, _)) => {
                if p2 <= p {
                    return Err(DemarshalError::CorruptedMessage);
                }
                proof {
                    g = g.push(v@);
                }
                acc.push(v);
                p = p2;
            },
            Err(e) => return Err(e),
        }
    }
}

/// Decodes dictionary entries of the type `{KV}` at `s[se]` while `pos < end`.
fn dm_entries(b: &[u8], base: usize, pos: usize, end: usize, s: &str, se: usize) -> (r: Result<(Vec<(BasicValue, Value)>, usize), DemarshalError>)
    requires
        base + b@.len() <= usize::MAX,
        pos <= b@.len(),
    ensures
        entries_res(r) == dec_entries(b@, base as int, pos as int, end as int, s@, se as int, Seq::empty()),
        r matches Ok((es, _)) ==> distinct_keys(es@),
        r matches Ok((_, p)) ==> pos <= p <= b@.len(),
    decreases b@.len() - pos, s@.len() - se, 2int,
{
    let n = s.unicode_len();
    let mut acc: Vec<(BasicValue, Value)> = Vec::new();
    let mut p = pos;
    proof {
        lemma_entry_views(acc@, 0);
        assert(entry_views(acc@, 0) =~= Seq::<(Val, Val)>::empty());
    }
    loop
        invariant
            n == s@.len(),
            base + b@.len() <= usize::MAX,
            pos <= p <= b@.len(),
            dec_entries(b@, base as int, pos as int, end as int, s@, se as int, Seq::empty())
                == dec_entries(b@, base as int, p as int, end as int, s@, se as int, entry_views(acc@, acc@.len())),
            distinct_keys(acc@),
        decreases b@.len() - p,
    {
        if p >= end {
            return Ok((acc, p));
        }
        if se >= n || se + 1 >= n || !is_key_char(s.get_char(se + 1)) {
            return Err(DemarshalError::BadSignature);
        }
        let p0 = match align_to(b, base, p, 8) {
            Ok(p0) => p0,
            Err(e) => return Err(e),
        };
        let (k, p1) = match dm_basic(b, base, p0, s.get_char(se + 1)) {
            Ok(t) => t,
            Err(e) => return Err(e),
        };
        match dm(b, base, p1, s, se + 2) {
            Ok((v, p2, _)) => {
                if p2 <= p {
                    return Err(DemarshalError::CorruptedMessage);
                }
                insert_entry(&mut acc, k, v);
                p = p2;
            },
            Err(e) => return Err(e),
        }
    }
}

/// Decodes one value of the type that starts `sig` from the head of `buf`,
/// whose first byte sits at absolute offset `offset`. On success the bytes and
/// the signature characters used are removed and `offset` moves past them; on
/// failure all three are left as they were.
pub fn demarshal(buf: &mut Vec<u8>, offset: &mut usize, sig: &mut String) -> (r: Result<Value, DemarshalError>)
    requires
        *old(offset) + old(buf)@.len() <= usize::MAX,
    ensures
        match dec(old(buf)@, *old(offset) as int, 0, old(sig)@, 0) {
            Ok((v, p, q)) => r is Ok && r->Ok_0@ == v && final(buf)@ == old(buf)@.subrange(
                p,
                old(buf)@.len() as int,
            ) && *final(offset) == *old(offset) + p && final(sig)@ == old(sig)@.subrange(
                q,
                old(sig)@.len() as int,
            ),
            Err(e) => r is Err && r->Err_0 == e && final(buf)@ == old(buf)@ && *final(offset)
                == *old(offset) && final(sig)@ == old(sig)@,
        },
{
    let res = dm(buf.as_slice(), *offset, 0, sig.as_str(), 0);
    match res {
        Ok((v, p, q)) => {
            let rest = copy_range(buf.as_slice(), p, buf.len());
            let n = sig.as_str().unicode_len();
            let srest = sig.as_str().substring_char(q, n).to_owned();
            *buf = rest;
            *offset = *offset + p;
            *sig = srest;
            Ok(v)
        },
        Err(e) => Err(e),
    }
}

} // verus!
