//! Server addresses: `transport:key=value,...` with percent-hex escapes.
use vstd::prelude::*;
use vstd::string::*;
use vstd::utf8::{decode_utf8, valid_utf8, encode_utf8};
use crate::demarshal::string_from_utf8;
use crate::hex::{from_hex, hex_decode};

verus! {

/// Why unescaping failed.
#[derive(Debug, Clone, Copy, PartialEq, Eq, Structural)]
pub enum UnescapeError {
    ShortEscapeSequence,
    EscapeNotUtf8,
    HexConversionError,
}

/// Why an address could not be parsed.
#[derive(Debug, Clone, Copy, PartialEq, Eq, Structural)]
pub enum Error {
    UnescapeError(UnescapeError),
    BadTransportSeparator,
    MalformedKeyValue,
    UnknownTransport,
    UnknownOption,
    MissingOption,
    ConflictingOptions,
}

/// An address error with the text it concerns.
pub type ServerAddressError = (Error, String);

/// An address error in the model.
pub type AddrErr = (Error, Seq<char>);

pub open spec fn err_view(e: ServerAddressError) -> AddrErr {
    (e.0, e.1@)
}

/// The bytes of `b` with each `%HH` replaced by the byte `HH`.
pub open spec fn unescape(b: Seq<u8>) -> Result<Seq<u8>, UnescapeError>
    decreases b.len(),
{
    if b.len() == 0 {
        Ok(Seq::empty())
    } else if b[0] != 37 {
        match unescape(b.subrange(1, b.len() as int)) {
            Ok(r) => Ok(seq![b[0]] + r),
            Err(e) => Err(e),
        }
    } else if b.len() < 3 {
        Err(UnescapeError::ShortEscapeSequence)
    } else if !valid_utf8(b.subrange(1, 3)) {
        Err(UnescapeError::EscapeNotUtf8)
    } else {
        match hex_decode(decode_utf8(b.subrange(1, 3))) {
            Some(h) => if h.len() == 0 {
                Err(UnescapeError::HexConversionError)
            } else {
                match unescape(b.subrange(3, b.len() as int)) {
                    Ok(r) => Ok(seq![h[0]] + r),
                    Err(e) => Err(e),
                }
            },
            None => Err(UnescapeError::HexConversionError),
        }
    }
}

/// The text `s` unescaped; the result must be UTF-8.
pub open spec fn unescape_str(s: Seq<char>) -> Result<Seq<char>, UnescapeError> {
    match unescape(encode_utf8(s)) {
        Ok(b) => if valid_utf8(b) {
            Ok(decode_utf8(b))
        } else {
            Err(UnescapeError::EscapeNotUtf8)
        },
        Err(e) => Err(e),
    }
}

/// Replaces each `%HH` in `buf` by the byte whose hex value is `HH`.
pub fn dbus_unescape(buf: &[u8]) -> (r: Result<Vec<u8>, UnescapeError>)
    ensures
        match unescape(buf@) {
            Ok(b) => r matches Ok(v) && v@ == b,
            Err(e) => r == Err::<Vec<u8>, UnescapeError>(e),
        },
{
    let n = buf.len();
    let mut out: Vec<u8> = Vec::new();
    let mut i: usize = 0;
    assert(buf@.subrange(0, n as int) =~= buf@);
    while i < n
        invariant
            n == buf@.len(),
            i <= n,
            unescape(buf@) == match unescape(buf@.subrange(i as int, n as int)) {
                Ok(r) => Ok(out@ + r),
                Err(e) => Err(e),
            },
        decreases n - i,
    {
        let ghost rest = buf@.subrange(i as int, n as int);
        let ghost old_out = out@;
        let c = buf[i];
        if c == 37 {
            if n - i < 3 {
                return Err(UnescapeError::ShortEscapeSequence);
            }
            let mut pair: Vec<u8> = Vec::new();
            pair.push(buf[i + 1]);
            pair.push(buf[i + 2]);
            assert(pair@ =~= rest.subrange(1, 3));
            assert(rest.subrange(3, rest.len() as int) =~= buf@.subrange(i + 3, n as int));
            let s = match string_from_utf8(pair) {
                Some(s) => s,
                None => return Err(UnescapeError::EscapeNotUtf8),
            };
            match from_hex(s.as_str()) {
                Some(h) => {
                    if h.len() == 0 {
                        return Err(UnescapeError::HexConversionError);
                    }
                    out.push(h[0]);
                    i += 3;
                    proof {
                        assert(s@ == decode_utf8(rest.subrange(1, 3)));
                        assert(unescape(rest) == match unescape(buf@.subrange(i as int, n as int)) {
                            Ok(r) => Ok(seq![h@[0]] + r),
                            Err(e) => Err(e),
                        });
                        match unescape(buf@.subrange(i as int, n as int)) {
                            Ok(r) => assert(old_out + (seq![h@[0]] + r) =~= out@ + r),
                            Err(e) => {},
                        }
                    }
                },
                None => return Err(UnescapeError::HexConversionError),
            }
        } else {
            out.push(c);
            i += 1;
            proof {
                assert(rest.subrange(1, rest.len() as int) =~= buf@.subrange(i as int, n as int));
                match unescape(buf@.subrange(i as int, n as int)) {
                    Ok(r) => assert(old_out + (seq![c] + r) =~= out@ + r),
                    Err(e) => {},
                }
            }
        }
    }
    assert(buf@.subrange(n as int, n as int) =~= Seq::<u8>::empty());
    assert(out@ + Seq::<u8>::empty() =~= out@);
    Ok(out)
}

/// Unescapes `s`; the result must be valid UTF-8.
pub fn dbus_unescape_str(s: &str) -> (r: Result<String, UnescapeError>)
    ensures
        match unescape_str(s@) {
            Ok(t) => r matches Ok(u) && u@ == t,
            Err(e) => r == Err::<String, UnescapeError>(e),
        },
{
    match dbus_unescape(s.as_bytes()) {
        Ok(v) => match string_from_utf8(v) {
            Some(t) => Ok(t),
            None => Err(UnescapeError::EscapeNotUtf8),
        },
        Err(e) => Err(e),
    }
}

/// `s` cut at each `sep`, as `str::split` does: one more piece than there
/// are separators.
pub open spec fn split(s: Seq<char>, sep: char) -> Seq<Seq<char>>
    decreases s.len(),
{
    if s.len() == 0 {
        seq![Seq::empty()]
    } else {
        let rest = split(s.subrange(1, s.len() as int), sep);
        if s[0] == sep {
            seq![Seq::empty()] + rest
        } else {
            rest.update(0, seq![s[0]] + rest[0])
        }
    }
}

proof fn lemma_split_nonempty(s: Seq<char>, sep: char)
    ensures
        split(s, sep).len() >= 1,
    decreases s.len(),
{
    if s.len() > 0 {
        lemma_split_nonempty(s.subrange(1, s.len() as int), sep);
    }
}

/// The models of a vector of strings.
pub open spec fn strs_view(v: Seq<String>) -> Seq<Seq<char>> {
    Seq::new(v.len(), |i: int| v[i]@)
}

/// The pieces of `s` between occurrences of `sep`.
pub fn split_char(s: &str, sep: char) -> (r: Vec<String>)
    ensures
        strs_view(r@) == split(s@, sep),
{
    let n = s.unicode_len();
    let mut acc: Vec<String> = Vec::new();
    let mut i: usize = n;
    let mut end: usize = n;
    proof {
        assert(s@.subrange(n as int, n as int) =~= Seq::<char>::empty());
        assert(split(s@.subrange(n as int, n as int), sep) =~= seq![s@.subrange(n as int, end as int)] + strs_view(acc@));
    }
    while i > 0
        invariant
            n == s@.len(),
            i <= end <= n,
            split(s@.subrange(i as int, n as int), sep) == seq![s@.subrange(i as int, end as int)]
                + strs_view(acc@),
        decreases i,
    {
        let ghost t = s@.subrange(i - 1, n as int);
        assert(t.subrange(1, t.len() as int) =~= s@.subrange(i as int, n as int));
        let c = s.get_char(i - 1);
        if c == sep {
            let piece = s.substring_char(i, end).to_owned();
            let ghost old_acc = acc@;
            acc.insert(0, piece);
            end = i - 1;
            i -= 1;
            assert(strs_view(acc@) =~= seq![piece@] + strs_view(old_acc));
            assert(s@.subrange(i as int, end as int) =~= Seq::<char>::empty());
            assert(split(t, sep) =~= seq![s@.subrange(i as int, end as int)] + strs_view(acc@));
        } else {
            i -= 1;
            assert(seq![c] + s@.subrange(i + 1, end as int) =~= s@.subrange(i as int, end as int));
            assert(split(t, sep) =~= seq![s@.subrange(i as int, end as int)] + strs_view(acc@));
        }
    }
    let piece = s.substring_char(0, end).to_owned();
    let ghost old_acc = acc@;
    acc.insert(0, piece);
    assert(s@.subrange(0, n as int) =~= s@);
    assert(strs_view(acc@) =~= split(s@, sep));
    acc
}

/// One `key=value` option, both sides unescaped.
pub open spec fn parse_kv(piece: Seq<char>) -> Result<(Seq<char>, Seq<char>), AddrErr> {
    let parts = split(piece, '=');
    if parts.len() != 2 {
        Err((Error::MalformedKeyValue, piece))
    } else {
        match unescape_str(parts[0]) {
            Ok(k) => match unescape_str(parts[1]) {
                Ok(v) => Ok((k, v)),
                Err(e) => Err((Error::UnescapeError(e), Seq::empty())),
            },
            Err(e) => Err((Error::UnescapeError(e), Seq::empty())),
        }
    }
}

/// The non-empty pieces of `pieces`, from index `i` on.
pub open spec fn nonempty_from(pieces: Seq<Seq<char>>, i: int) -> Seq<Seq<char>>
    decreases pieces.len() - i,
{
    if i < 0 || i >= pieces.len() {
        Seq::empty()
    } else if pieces[i].len() == 0 {
        nonempty_from(pieces, i + 1)
    } else {
        seq![pieces[i]] + nonempty_from(pieces, i + 1)
    }
}

/// The option texts of a comma-separated list; empty segments are skipped.
pub open spec fn options(opts: Seq<char>) -> Seq<Seq<char>> {
    nonempty_from(split(opts, ','), 0)
}

/// Walks a comma-separated list of `key=value` options.
pub struct AddrKeyVals {
    pieces: Vec<String>,
    idx: usize,
}

impl AddrKeyVals {
    /// The option texts not yet handed out.
    pub closed spec fn remaining(&self) -> Seq<Seq<char>> {
        nonempty_from(strs_view(self.pieces@), self.idx as int)
    }

    pub fn new(s: &str) -> (r: AddrKeyVals)
        ensures
            r.remaining() == options(s@),
    {
        AddrKeyVals { pieces: split_char(s, ','), idx: 0 }
    }

    /// The next non-empty option text.
    pub fn get_next(&mut self) -> (r: Option<String>)
        ensures
            match r {
                Some(t) => old(self).remaining().len() > 0 && t@ == old(self).remaining()[0]
                    && final(self).remaining() == old(self).remaining().subrange(
                    1,
                    old(self).remaining().len() as int,
                ),
                None => old(self).remaining().len() == 0 && final(self).remaining().len() == 0,
            },
    {
        let ghost start = self.remaining();
        while self.idx < self.pieces.len()
            invariant
                start == self.remaining(),
                start == old(self).remaining(),
            decreases self.pieces@.len() - self.idx,
        {
            let i = self.idx;
            self.idx = i + 1;
            if self.pieces[i].as_str().unicode_len() != 0 {
                let t = self.pieces[i].clone();
                proof {
                    let ps = strs_view(self.pieces@);
                    assert(ps[i as int] == self.pieces@[i as int]@);
                    assert(ps[i as int].len() != 0);
                    assert(start == seq![ps[i as int]] + self.remaining());
                    assert(start[0] == t@);
                }
                assert(self.remaining() =~= start.subrange(1, start.len() as int));
                return Some(t);
            }
        }
        None
    }

    /// The next option, split at `=` and unescaped.
    pub fn next(&mut self) -> (r: Option<Result<(String, String), ServerAddressError>>)
        ensures
            match r {
                Some(x) => old(self).remaining().len() > 0 && final(self).remaining() == old(
                    self,
                ).remaining().subrange(1, old(self).remaining().len() as int) && match parse_kv(
                    old(self).remaining()[0],
                ) {
                    Ok((k, v)) => x matches Ok((k2, v2)) && k2@ == k && v2@ == v,
                    Err(e) => x matches Err(e2) && err_view(e2) == e,
                },
                None => old(self).remaining().len() == 0 && final(self).remaining().len() == 0,
            },
    {
        let kvs = match self.get_next() {
            Some(kvs) => kvs,
            None => return None,
        };
        let parts = split_char(kvs.as_str(), '=');
        if parts.len() != 2 {
            return Some(Err((Error::MalformedKeyValue, kvs)));
        }
        let key = match dbus_unescape_str(parts[0].as_str()) {
            Ok(k) => k,
            Err(e) => return Some(Err((Error::UnescapeError(e), String::new()))),
        };
        let val = match dbus_unescape_str(parts[1].as_str()) {
            Ok(v) => v,
            Err(e) => return Some(Err((Error::UnescapeError(e), String::new()))),
        };
        Some(Ok((key, val)))
    }
}


/// A Unix-socket address, from its options (from index `i` on), given the path
/// seen so far and whether it was given as `abstract`.
pub open spec fn unix_fold(opts: Seq<Seq<char>>, i: int, path: Option<Seq<char>>, abs: bool) -> Result<Seq<char>, AddrErr>
    decreases opts.len() - i,
{
    if i < 0 || i >= opts.len() {
        match path {
            Some(p) => Ok(if abs { seq!['\0'] + p } else { p }),
            None => Err((Error::MissingOption, "No path for unix socket"@)),
        }
    } else {
        match parse_kv(opts[i]) {
            Ok((k, v)) => if k == "path"@ || k == "abstract"@ {
                if path is Some {
                    Err((Error::ConflictingOptions, "Duplicate path/abstract specified"@))
                } else {
                    unix_fold(opts, i + 1, Some(v), abs || k == "abstract"@)
                }
            } else if k == "guid"@ {
                unix_fold(opts, i + 1, path, abs)
            } else {
                Err((Error::UnknownOption, k))
            },
            Err(e) => Err(e),
        }
    }
}

/// A TCP address, from its options (from index `i` on), given the host and
/// port seen so far.
pub open spec fn tcp_fold(opts: Seq<Seq<char>>, i: int, host: Option<Seq<char>>, port: Option<Seq<char>>) -> Result<(Seq<char>, Seq<char>), AddrErr>
    decreases opts.len() - i,
{
    if i < 0 || i >= opts.len() {
        match host {
            Some(h) => match port {
                Some(p) => Ok((h, p)),
                None => Err((Error::MissingOption, "No port for tcp socket"@)),
            },
            None => Err((Error::MissingOption, "No host for tcp socket"@)),
        }
    } else {
        match parse_kv(opts[i]) {
            Ok((k, v)) => if k == "host"@ {
                if host is Some {
                    Err((Error::ConflictingOptions, "Duplicate host specified"@))
                } else {
                    tcp_fold(opts, i + 1, Some(v), port)
                }
            } else if k == "port"@ {
                if port is Some {
                    Err((Error::ConflictingOptions, "Duplicate port specified"@))
                } else {
                    tcp_fold(opts, i + 1, host, Some(v))
                }
            } else if k == "guid"@ {
                tcp_fold(opts, i + 1, host, port)
            } else {
                Err((Error::UnknownOption, k))
            },
            Err(e) => Err(e),
        }
    }
}

/// What parsing the Unix-address options `opts` gives.
pub open spec fn unix_result(opts: Seq<char>, r: Result<UnixAddress, ServerAddressError>) -> bool {
    match unix_fold(options(opts), 0, None, false) {
        Ok(p) => r matches Ok(u) && u.path_view() == p,
        Err(e) => r matches Err(e2) && err_view(e2) == e,
    }
}

/// What parsing the TCP-address options `opts` gives.
pub open spec fn tcp_result(opts: Seq<char>, r: Result<TcpAddress, ServerAddressError>) -> bool {
    match tcp_fold(options(opts), 0, None, None) {
        Ok((h, p)) => r matches Ok(t) && t.host_view() == h && t.port_view() == p,
        Err(e) => r matches Err(e2) && err_view(e2) == e,
    }
}

/// What parsing the server address `s` gives.
pub open spec fn server_result(s: Seq<char>, r: Result<ServerAddress, ServerAddressError>) -> bool {
    let parts = split(s, ':');
    if parts.len() != 2 {
        r matches Err(e) && err_view(e) == (Error::BadTransportSeparator, s)
    } else if parts[0] == "unix"@ {
        match unix_fold(options(parts[1]), 0, None, false) {
            Ok(p) => r matches Ok(ServerAddress::Unix(u)) && u.path_view() == p,
            Err(e) => r matches Err(e2) && err_view(e2) == e,
        }
    } else if parts[0] == "tcp"@ {
        match tcp_fold(options(parts[1]), 0, None, None) {
            Ok((h, p)) => r matches Ok(ServerAddress::Tcp(t)) && t.host_view() == h
                && t.port_view() == p,
            Err(e) => r matches Err(e2) && err_view(e2) == e,
        }
    } else {
        r matches Err(e) && err_view(e) == (Error::UnknownTransport, parts[0])
    }
}

/// A D-Bus Unix-socket address.
#[derive(Debug)]
pub struct UnixAddress {
    path: String,
}

impl UnixAddress {
    pub closed spec fn path_view(&self) -> Seq<char> {
        self.path@
    }

    /// The socket's path; an abstract one starts with a NUL character.
    pub fn path(&self) -> (r: &str)
        ensures
            r@ == self.path_view(),
    {
        self.path.as_str()
    }

    /// Parses the options of a `unix:` address: exactly one of `path` or
    /// `abstract`, and optionally `guid`.
    pub fn from_options(opts: &str) -> (r: Result<UnixAddress, ServerAddressError>)
        ensures
            unix_result(opts@, r),
    {
        let mut kvs = AddrKeyVals::new(opts);
        let ghost all = options(opts@);
        assert(all.subrange(0, all.len() as int) =~= all);
        let mut path: Option<String> = None;
        let mut abs = false;
        let ghost mut i: int = 0;
        loop
            invariant
                all == options(opts@),
                0 <= i <= all.len(),
                kvs.remaining() == all.subrange(i, all.len() as int),
                unix_fold(all, 0, None, false) == unix_fold(
                    all,
                    i,
                    match path {
                        Some(p) => Some(p@),
                        None => None,
                    },
                    abs,
                ),
            ensures
                i == all.len(),
            decreases all.len() - i,
        {
            let ghost before = kvs.remaining();
            match kvs.next() {
                None => {
                    assert(i == all.len());
                    assert(kvs.remaining() =~= all.subrange(i, all.len() as int));
                    break;
                },
                Some(Err(e)) => {
                    assert(i < all.len());
                    assert(before[0] == all[i]);
                    return Err(e);
                },
                Some(Ok((k, v))) => {
                    assert(i < all.len());
                    assert(before[0] == all[i]);
                    assert(kvs.remaining() =~= all.subrange(i + 1, all.len() as int));
                    let is_path = k == "path".to_owned();
                    let is_abstract = k == "abstract".to_owned();
                    if is_path || is_abstract {
                        if path.is_some() {
                            return Err(
                                (
                                    Error::ConflictingOptions,
                                    "Duplicate path/abstract specified".to_owned(),
                                ),
                            );
                        }
                        path = Some(v);
                        abs = abs || is_abstract;
                    } else if k == "guid".to_owned() {
                    } else {
                        return Err((Error::UnknownOption, k));
                    }
                    proof {
                        i = i + 1;
                    }
                },
            }
        }
        match path {
            Some(p) => {
                if abs {
                    let r = "\0".to_owned().concat(p.as_str());
                    proof {
                        reveal_strlit("\0");
                    }
                    assert(r@ =~= seq!['\0'] + p@);
                    Ok(UnixAddress { path: r })
                } else {
                    Ok(UnixAddress { path: p })
                }
            },
            None => Err((Error::MissingOption, "No path for unix socket".to_owned())),
        }
    }
}

impl std::str::FromStr for UnixAddress {
    type Err = ServerAddressError;

    fn from_str(opts: &str) -> (r: Result<UnixAddress, ServerAddressError>)
        ensures
            unix_result(opts@, r),
    {
        UnixAddress::from_options(opts)
    }
}

/// A D-Bus TCP address.
#[derive(Debug)]
pub struct TcpAddress {
    host: String,
    port: String,
}

impl TcpAddress {
    pub closed spec fn host_view(&self) -> Seq<char> {
        self.host@
    }

    pub closed spec fn port_view(&self) -> Seq<char> {
        self.port@
    }

    /// The host to connect to.
    pub fn host(&self) -> (r: &str)
        ensures
            r@ == self.host_view(),
    {
        self.host.as_str()
    }

    /// The port to connect to, as written.
    pub fn port(&self) -> (r: &str)
        ensures
            r@ == self.port_view(),
    {
        self.port.as_str()
    }

    /// Parses the options of a `tcp:` address: `host` and `port`, and
    /// optionally `guid`.
    pub fn from_options(opts: &str) -> (r: Result<TcpAddress, ServerAddressError>)
        ensures
            tcp_result(opts@, r),
    {
        let mut kvs = AddrKeyVals::new(opts);
        let ghost all = options(opts@);
        assert(all.subrange(0, all.len() as int) =~= all);
        let mut host: Option<String> = None;
        let mut port: Option<String> = None;
        let ghost mut i: int = 0;
        loop
            invariant
                all == options(opts@),
                0 <= i <= all.len(),
                kvs.remaining() == all.subrange(i, all.len() as int),
                tcp_fold(all, 0, None, None) == tcp_fold(
                    all,
                    i,
                    match host {
                        Some(p) => Some(p@),
                        None => None,
                    },
                    match port {
                        Some(p) => Some(p@),
                        None => None,
                    },
                ),
            ensures
                i == all.len(),
            decreases all.len() - i,
        {
            let ghost before = kvs.remaining();
            match kvs.next() {
                None => {
                    assert(i == all.len());
                    assert(kvs.remaining() =~= all.subrange(i, all.len() as int));
                    break;
                },
                Some(Err(e)) => {
                    assert(i < all.len());
                    assert(before[0] == all[i]);
                    return Err(e);
                },
                Some(Ok((k, v))) => {
                    assert(i < all.len());
                    assert(before[0] == all[i]);
                    assert(kvs.remaining() =~= all.subrange(i + 1, all.len() as int));
                    if k == "host".to_owned() {
                        if host.is_some() {
                            return Err(
                                (Error::ConflictingOptions, "Duplicate host specified".to_owned()),
                            );
                        }
                        host = Some(v);
                    } else if k == "port".to_owned() {
                        if port.is_some() {
                            return Err(
                                (Error::ConflictingOptions, "Duplicate port specified".to_owned()),
                            );
                        }
                        port = Some(v);
                    } else if k == "guid".to_owned() {
                    } else {
                        return Err((Error::UnknownOption, k));
                    }
                    proof {
                        i = i + 1;
                    }
                },
            }
        }
        match host {
            Some(h) => match port {
                Some(p) => Ok(TcpAddress { host: h, port: p }),
                None => Err((Error::MissingOption, "No port for tcp socket".to_owned())),
            },
            None => Err((Error::MissingOption, "No host for tcp socket".to_owned())),
        }
    }
}

impl std::str::FromStr for TcpAddress {
    type Err = ServerAddressError;

    fn from_str(opts: &str) -> (r: Result<TcpAddress, ServerAddressError>)
        ensures
            tcp_result(opts@, r),
    {
        TcpAddress::from_options(opts)
    }
}

/// A server address of one of the supported transports.
#[derive(Debug)]
pub enum ServerAddress {
    Unix(UnixAddress),
    Tcp(TcpAddress),
}

impl ServerAddress {
    /// Parses `transport:options`.
    pub fn parse(s: &str) -> (r: Result<ServerAddress, ServerAddressError>)
        ensures
            server_result(s@, r),
    {
        let parts = split_char(s, ':');
        if parts.len() != 2 {
            return Err((Error::BadTransportSeparator, s.to_owned()));
        }
        let transport = &parts[0];
        let opts = parts[1].as_str();
        if *transport == "unix".to_owned() {
            match UnixAddress::from_options(opts) {
                Ok(u) => Ok(ServerAddress::Unix(u)),
                Err(e) => Err(e),
            }
        } else if *transport == "tcp".to_owned() {
            match TcpAddress::from_options(opts) {
                Ok(t) => Ok(ServerAddress::Tcp(t)),
                Err(e) => Err(e),
            }
        } else {
            Err((Error::UnknownTransport, transport.clone()))
        }
    }
}

impl std::str::FromStr for ServerAddress {
    type Err = ServerAddressError;

    fn from_str(s: &str) -> (r: Result<ServerAddress, ServerAddressError>)
        ensures
            server_result(s@, r),
    {
        ServerAddress::parse(s)
    }
}

} // verus!
