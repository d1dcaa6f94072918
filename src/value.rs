//! The D-Bus value model: basic values, containers and variants.
use vstd::prelude::*;

verus! {

/// An object path, carried as its text.
#[derive(Debug, Clone, PartialEq)]
pub struct Path(pub String);

/// A type signature, carried as its text.
#[derive(Debug, Clone, PartialEq)]
pub struct Signature(pub String);

/// The basic D-Bus types: those that may key a dictionary.
#[derive(Debug, Clone, PartialEq)]
pub enum BasicValue {
    Byte(u8),
    Boolean(bool),
    Int16(i16),
    Uint16(u16),
    Int32(i32),
    Uint32(u32),
    Int64(i64),
    Uint64(u64),
    String(String),
    ObjectPath(Path),
    Signature(Signature),
}

/// An array of values of one type; `signature` is the array's full signature (`a...`).
#[derive(Debug, PartialEq)]
pub struct Array {
    pub objects: Vec<Value>,
    pub signature: Signature,
}

/// A struct; `signature` is its full signature (`(...)`).
#[derive(Debug, PartialEq)]
pub struct Struct {
    pub objects: Vec<Value>,
    pub signature: Signature,
}

/// A value together with its own signature.
#[derive(Debug, PartialEq)]
pub struct Variant {
    pub object: Box<Value>,
    pub signature: Signature,
}

/// A dictionary: entries in order, keys distinct; `signature` is `a{KV}`.
#[derive(Debug, PartialEq)]
pub struct Dictionary {
    pub(crate) entries: Vec<(BasicValue, Value)>,
    pub(crate) signature: Signature,
}

/// No two entries have the same key.
pub open spec fn distinct_keys(es: Seq<(BasicValue, Value)>) -> bool {
    forall|i: int, j: int| 0 <= i < j < es.len() ==> es[i].0.view() != es[j].0.view()
}

/// Any D-Bus value. A double is held as its IEEE-754 bit pattern.
#[derive(Debug, PartialEq)]
pub enum Value {
    BasicValue(BasicValue),
    Double(u64),
    Array(Array),
    Variant(Variant),
    Struct(Struct),
    Dictionary(Dictionary),
}

/// The mathematical model of a value.
pub enum Val {
    Byte(u8),
    Boolean(bool),
    Int16(i16),
    Uint16(u16),
    Int32(i32),
    Uint32(u32),
    Int64(i64),
    Uint64(u64),
    Double(u64),
    Str(Seq<char>),
    ObjectPath(Seq<char>),
    Sig(Seq<char>),
    Array(Seq<char>, Seq<Val>),
    Struct(Seq<char>, Seq<Val>),
    Dict(Seq<char>, Seq<(Val, Val)>),
    Variant(Seq<char>, Box<Val>),
}

impl BasicValue {
    pub open spec fn view(&self) -> Val {
        match self {
            BasicValue::Byte(x) => Val::Byte(*x),
            BasicValue::Boolean(x) => Val::Boolean(*x),
            BasicValue::Int16(x) => Val::Int16(*x),
            BasicValue::Uint16(x) => Val::Uint16(*x),
            BasicValue::Int32(x) => Val::Int32(*x),
            BasicValue::Uint32(x) => Val::Uint32(*x),
            BasicValue::Int64(x) => Val::Int64(*x),
            BasicValue::Uint64(x) => Val::Uint64(*x),
            BasicValue::String(s) => Val::Str(s@),
            BasicValue::ObjectPath(p) => Val::ObjectPath(p.0@),
            BasicValue::Signature(g) => Val::Sig(g.0@),
        }
    }
}

/// The models of the first `n` values of `s`.
pub open spec fn views(s: Seq<Value>, n: nat) -> Seq<Val>
    decreases s, n,
{
    if n == 0 || n > s.len() {
        Seq::empty()
    } else {
        views(s, (n - 1) as nat).push(s[n - 1].view())
    }
}

/// The models of the first `n` entries of `s`.
pub open spec fn entry_views(s: Seq<(BasicValue, Value)>, n: nat) -> Seq<(Val, Val)>
    decreases s, n,
{
    if n == 0 || n > s.len() {
        Seq::empty()
    } else {
        entry_views(s, (n - 1) as nat).push((s[n - 1].0.view(), s[n - 1].1.view()))
    }
}

impl Value {
    pub open spec fn view(&self) -> Val
        decreases self,
    {
        match self {
            Value::BasicValue(b) => b.view(),
            Value::Double(x) => Val::Double(*x),
            Value::Array(a) => Val::Array(a.signature.0@, views(a.objects@, a.objects@.len())),
            Value::Variant(v) => Val::Variant(v.signature.0@, Box::new((*v.object).view())),
            Value::Struct(s) => Val::Struct(s.signature.0@, views(s.objects@, s.objects@.len())),
            Value::Dictionary(d) => Val::Dict(
                d.sig_view(),
                entry_views(d.entries_view(), d.entries_view().len()),
            ),
        }
    }
}



impl Dictionary {
    #[verifier::type_invariant]
    spec fn inv(&self) -> bool {
        distinct_keys(self.entries@)
    }

    /// The entries, in order.
    pub closed spec fn entries_view(&self) -> Seq<(BasicValue, Value)> {
        self.entries@
    }

    /// The signature's text.
    pub closed spec fn sig_view(&self) -> Seq<char> {
        self.signature.0@
    }

    /// The dictionary with entries whose keys are known to be distinct.
    pub(crate) fn from_distinct(entries: Vec<(BasicValue, Value)>, signature: Signature) -> (r: Dictionary)
        requires
            distinct_keys(entries@),
        ensures
            r.entries_view() == entries@,
            r.sig_view() == signature.0@,
    {
        Dictionary { entries, signature }
    }

    /// The dictionary with these entries and signature; `None` when two
    /// entries have the same key.
    pub fn new(entries: Vec<(BasicValue, Value)>, signature: Signature) -> (r: Option<Dictionary>)
        ensures
            r is Some <==> distinct_keys(entries@),
            r matches Some(d) ==> d.entries_view() == entries@ && d.sig_view() == signature.0@,
    {
        let n = entries.len();
        let mut i: usize = 0;
        while i < n
            invariant
                n == entries@.len(),
                i <= n,
                forall|a: int, b: int| 0 <= a < b < n && a < i ==> entries@[a].0.view() != entries@[b].0.view(),
            decreases n - i,
        {
            let mut j: usize = i + 1;
            while j < n
                invariant
                    n == entries@.len(),
                    i < n,
                    i + 1 <= j <= n,
                    forall|a: int, b: int| 0 <= a < b < n && a < i ==> entries@[a].0.view() != entries@[b].0.view(),
                    forall|b: int| i < b < j ==> entries@[i as int].0.view() != entries@[b].0.view(),
                decreases n - j,
            {
                if crate::demarshal::basic_eq(&entries[i].0, &entries[j].0) {
                    return None;
                }
                j += 1;
            }
            i += 1;
        }
        Some(Dictionary { entries, signature })
    }

    /// The entries, in order.
    pub fn entries(&self) -> (r: &Vec<(BasicValue, Value)>)
        ensures
            r@ == self.entries_view(),
            decreases_to!(*self => *r),
            distinct_keys(r@),
    {
        proof {
            use_type_invariant(self);
        }
        &self.entries
    }

    /// The dictionary's signature, `a{KV}`.
    pub fn signature(&self) -> (r: &Signature)
        ensures
            r.0@ == self.sig_view(),
    {
        &self.signature
    }
}

impl Variant {
    /// Wraps `v`, whose signature is `s`.
    pub fn new(v: Value, s: &str) -> (r: Variant)
        ensures
            *r.object == v,
            r.signature.0@ == s@,
    {
        Variant { object: Box::new(v), signature: Signature(s.to_owned()) }
    }
}

pub proof fn lemma_views(s: Seq<Value>, n: nat)
    requires
        n <= s.len(),
    ensures
        views(s, n).len() == n,
        forall|k: int| 0 <= k < n ==> #[trigger] views(s, n)[k] == s[k].view(),
    decreases n,
{
    if n > 0 {
        lemma_views(s, (n - 1) as nat);
    }
}

pub proof fn lemma_entry_views(s: Seq<(BasicValue, Value)>, n: nat)
    requires
        n <= s.len(),
    ensures
        entry_views(s, n).len() == n,
        forall|k: int|
            0 <= k < n ==> #[trigger] entry_views(s, n)[k] == (s[k].0.view(), s[k].1.view()),
    decreases n,
{
    if n > 0 {
        lemma_entry_views(s, (n - 1) as nat);
    }
}

} // verus!
