use crate::bytes::lower;
use crate::error::Error;
use crate::headers::{
    header_get, header_lines, headers_wf, some_value_contains, some_value_has_token, EntryView,
    Headers,
};
use crate::body::{crlf, Body};
use crate::chunked::{chunk_run, chunk_start, decode_chunks, ChunkState};
use crate::names::{
    chunked, chunked_bytes, close, close_bytes, connection, connection_bytes, content_length,
    content_length_bytes, content_type, content_type_bytes, continue_100, continue_100_bytes, date,
    date_bytes, expect, expect_bytes, head_method, head_method_bytes, http11, http11_bytes,
    transfer_encoding, transfer_encoding_bytes, upgrade, upgrade_bytes,
};
use crate::raw::{http_date_now, parse_url, reason_of, status_reason, url_accepts};
use crate::request_body::{content_length_value, parse_content_length};
use crate::text::{decimal, push_decimal};
use crate::headers::values_of;
use vstd::string::StringSliceAdditionalSpecFns;
use vstd::utf8::{decode_utf8, encode_utf8, encode_utf8_decode_utf8};
use crate::raw::{method_of, parse_method, tokenize_request, tokenized_request, RawHead, RawHeadView};
use crate::request_body::RequestBodyState;
use crate::text::{is_utf8, str_from_utf8};
use vstd::prelude::*;
use vstd::slice::slice_to_vec;
use vstd::utf8::valid_utf8;

verus! {

/// One request/response exchange on a connection.
#[derive(Debug)]
pub struct Conn {
    request_headers: Headers,
    response_headers: Headers,
    path: String,
    method: Vec<u8>,
    status: Option<u16>,
    response_body: Option<Body>,
    buffer: Vec<u8>,
    request_body_state: RequestBodyState,
    secure: bool,
}

/// An exchange as plain values.
pub struct ConnView {
    pub request_headers: Seq<EntryView>,
    pub response_headers: Seq<EntryView>,
    pub path: Seq<char>,
    /// The canonical name of the request method.
    pub method: Seq<u8>,
    pub status: Option<u16>,
    pub body: Option<Body>,
    /// Bytes read past what this exchange has used.
    pub buffer: Seq<u8>,
    pub state: RequestBodyState,
    pub secure: bool,
}

impl View for Conn {
    type V = ConnView;

    closed spec fn view(&self) -> ConnView {
        ConnView {
            request_headers: self.request_headers@,
            response_headers: self.response_headers@,
            path: self.path@,
            method: self.method@,
            status: self.status,
            body: self.response_body,
            buffer: self.buffer@,
            state: self.request_body_state,
            secure: self.secure,
        }
    }
}

/// The values of the header lines named `key` (in lower case), in order.
pub open spec fn raw_values(raw: Seq<(Seq<u8>, Seq<u8>)>, key: Seq<u8>) -> Seq<Seq<u8>>
    decreases raw.len(),
{
    if raw.len() == 0 {
        Seq::empty()
    } else if lower(raw.last().0) == key {
        raw_values(raw.drop_last(), key).push(raw.last().1)
    } else {
        raw_values(raw.drop_last(), key)
    }
}

/// No values at all is no entry.
pub open spec fn opt_values(s: Seq<Seq<u8>>) -> Option<Seq<Seq<u8>>> {
    if s.len() == 0 {
        None
    } else {
        Some(s)
    }
}

/// Every header value is valid UTF-8.
pub open spec fn values_utf8(raw: Seq<(Seq<u8>, Seq<u8>)>) -> bool {
    forall|i: int| 0 <= i < raw.len() ==> valid_utf8(#[trigger] raw[i].1)
}

/// Why a tokenized head is refused, checked in this order; `None` when it
/// is accepted.
pub open spec fn head_refusal(h: RawHeadView) -> Option<Error> {
    if !h.complete {
        Some(Error::PartialHead)
    } else if h.method is None {
        Some(Error::MissingMethod)
    } else if method_of(h.method->0) is None {
        // the payload is compared by its text; see `from_raw`
        Some(Error::UnrecognizedMethod(arbitrary()))
    } else if h.version is None {
        Some(Error::MissingVersion)
    } else if h.version != Some(1u8) {
        Some(Error::UnsupportedVersion(h.version->0))
    } else if !values_utf8(h.headers) {
        Some(Error::Utf8)
    } else if h.path is None {
        Some(Error::RequestPathMissing)
    } else {
        None
    }
}

/// A fresh exchange made from an accepted head and the bytes read past it.
pub open spec fn fresh_from(v: ConnView, h: RawHeadView, buffer: Seq<u8>) -> bool {
    &&& v.method == method_of(h.method->0)->0
    &&& v.path == h.path->0
    &&& v.buffer == buffer
    &&& forall|n: Seq<u8>| #[trigger]
        header_get(v.request_headers, n) == opt_values(raw_values(h.headers, lower(n)))
    &&& v.response_headers.len() == 0
    &&& v.status is None
    &&& v.body is None
    &&& v.state == RequestBodyState::Start
    &&& !v.secure
}

/// The result of building an exchange from a tokenized head: the first
/// refusal that applies, or a fresh exchange.
pub open spec fn refused_or_fresh(h: RawHeadView, buffer: Seq<u8>, r: Result<Conn, Error>) -> bool {
    match head_refusal(h) {
        Some(Error::UnrecognizedMethod(_)) => (r matches Err(Error::UnrecognizedMethod(m)) && m@
            == h.method->0),
        Some(e) => r == Err::<Conn, Error>(e),
        None => (r matches Ok(c) && c.wf() && fresh_from(c@, h, buffer)),
    }
}

/// The exchange should end the connection: either side sent `Connection: close`.
pub open spec fn closes(v: ConnView) -> bool {
    some_value_has_token(header_get(v.request_headers, connection()), close())
        || some_value_has_token(header_get(v.response_headers, connection()), close())
}

/// The exchange hands the stream to another protocol: the request names an
/// upgrade, lists `upgrade` as a connection option, and the response is
/// `101 Switching Protocols`.
pub open spec fn upgrades(v: ConnView) -> bool {
    &&& header_get(v.request_headers, upgrade()) is Some
    &&& some_value_has_token(header_get(v.request_headers, connection()), upgrade())
    &&& v.status == Some(101u16)
}

/// What happens to the connection once a response is written.
#[derive(Debug)]
pub enum Finish {
    /// Tear the stream down.
    Close,
    /// Hand the stream to another protocol.
    Upgrade(Upgrade),
    /// Read the next request head, starting with these carried-over bytes.
    Next(Option<Vec<u8>>),
}

/// What a protocol upgrade takes over from the exchange, besides the stream.
#[derive(Debug)]
pub struct Upgrade {
    pub request_headers: Headers,
    pub path: String,
    pub method: Vec<u8>,
    /// Bytes read past the request head, which belong to the new protocol.
    pub buffer: Option<Vec<u8>>,
}

/// Where a connection stands after an exchange.
#[derive(Debug)]
pub enum ConnectionStatus {
    /// The stream should be torn down.
    Close,
    /// The next exchange, read from the same stream.
    Conn(Conn),
    /// The stream goes to another protocol.
    Upgrade(Upgrade),
}

/// The bytes carried over, where there are any.
pub open spec fn carried(b: Seq<u8>, r: Option<Vec<u8>>) -> bool {
    if b.len() == 0 {
        r is None
    } else {
        r matches Some(v) && v@ == b
    }
}

fn carry(buffer: Vec<u8>) -> (r: Option<Vec<u8>>)
    ensures
        carried(buffer@, r),
{
    if buffer.len() == 0 {
        None
    } else {
        Some(buffer)
    }
}

impl ConnectionStatus {
    /// Reads the outcome of parsing the next head: a clean close by the client
    /// ends the connection normally; any other error ends it with that error.
    pub fn from_next(next: Result<Conn, Error>) -> (r: Result<ConnectionStatus, Error>)
        ensures
            match next {
                Ok(c) => (r matches Ok(ConnectionStatus::Conn(d)) && d == c),
                Err(Error::ClosedByClient) => (r matches Ok(ConnectionStatus::Close)),
                Err(e) => r == Err::<ConnectionStatus, Error>(e),
            },
    {
        match next {
            Ok(c) => Ok(ConnectionStatus::Conn(c)),
            Err(Error::ClosedByClient) => Ok(ConnectionStatus::Close),
            Err(e) => Err(e),
        }
    }
}

impl Conn {
    /// The exchange's invariant: both header collections are well formed.
    pub open spec fn wf(&self) -> bool {
        &&& headers_wf(self@.request_headers)
        &&& headers_wf(self@.response_headers)
        &&& state_wf(self@.state)
    }

    /// Builds an exchange from a tokenized head and the bytes read past it.
    pub fn from_raw(raw: RawHead, buffer: Vec<u8>) -> (r: Result<Conn, Error>)
        ensures
            refused_or_fresh(raw@, buffer@, r),
    {
        let ghost h = raw@;
        if !raw.complete {
            return Err(Error::PartialHead);
        }
        let method_text = match raw.method {
            Some(m) => m,
            None => return Err(Error::MissingMethod),
        };
        let method = match parse_method(method_text.as_str()) {
            Some(m) => m,
            None => return Err(Error::UnrecognizedMethod(method_text)),
        };
        match raw.version {
            Some(1u8) => {},
            Some(v) => return Err(Error::UnsupportedVersion(v)),
            None => return Err(Error::MissingVersion),
        }
        let mut request_headers = Headers::new();
        let mut i: usize = 0;
        while i < raw.headers.len()
            invariant
                i <= raw.headers@.len(),
                h == raw@,
                h.headers == raw.headers@.map_values(|x: (Vec<u8>, Vec<u8>)| (x.0@, x.1@)),
                h.complete && h.method is Some && method_of(h.method->0) is Some,
                h.version == Some(1u8),
                h.method->0 == method_text@,
                method@ == method_of(h.method->0)->0,
                request_headers.wf(),
                forall|k: int| 0 <= k < i ==> valid_utf8(#[trigger] h.headers[k].1),
                forall|n: Seq<u8>| #[trigger]
                    header_get(request_headers@, n) == opt_values(
                        raw_values(h.headers.subrange(0, i as int), lower(n)),
                    ),
            decreases raw.headers@.len() - i,
        {
            let (name, value) = (&raw.headers[i].0, &raw.headers[i].1);
            assert(h.headers[i as int] == (name@, value@));
            if !is_utf8(value.as_slice()) {
                assert(!valid_utf8(h.headers[i as int].1));
                assert(!values_utf8(h.headers));
                return Err(Error::Utf8);
            }
            let ghost before = request_headers@;
            request_headers.append(name.as_slice(), value.as_slice());
            proof {
                let hs = h.headers.subrange(0, i + 1);
                assert(hs.drop_last() =~= h.headers.subrange(0, i as int));
                assert forall|n: Seq<u8>| #[trigger]
                    header_get(request_headers@, n) == opt_values(raw_values(hs, lower(n))) by {
                    if lower(n) != lower(name@) {
                        assert(header_get(request_headers@, n) == header_get(before, n));
                    }
                }
            }
            i += 1;
        }
        assert(h.headers.subrange(0, i as int) =~= h.headers);
        let path = match raw.path {
            Some(p) => p,
            None => return Err(Error::RequestPathMissing),
        };
        let response_headers = Headers::new();
        let c = Conn {
            request_headers,
            response_headers,
            path,
            method,
            status: None,
            response_body: None,
            buffer,
            request_body_state: RequestBodyState::Start,
            secure: false,
        };
        Ok(c)
    }

    /// Parses a request head (through its blank line) and keeps the bytes
    /// read past it for the body or the next request.
    pub fn new(head: &[u8], buffer: Vec<u8>) -> (r: Result<Conn, Error>)
        ensures
            match tokenized_request(head@) {
                None => r == Err::<Conn, Error>(Error::Httparse),
                Some(h) => refused_or_fresh(h, buffer@, r),
            },
    {
        match tokenize_request(head) {
            None => Err(Error::Httparse),
            Some(raw) => Self::from_raw(raw, buffer),
        }
    }

    /// Whether either side sent `Connection: close`.
    pub fn should_close(&self) -> (r: bool)
        requires
            self.wf(),
        ensures
            r == closes(self@),
    {
        let name = connection_bytes();
        let token = close_bytes();
        self.request_headers.contains_token(name.as_slice(), token.as_slice())
            || self.response_headers.contains_token(name.as_slice(), token.as_slice())
    }

    /// Whether the exchange hands the stream to another protocol.
    pub fn should_upgrade(&self) -> (r: bool)
        requires
            self.wf(),
        ensures
            r == upgrades(self@),
    {
        let up = upgrade_bytes();
        let has_upgrade_header = self.request_headers.has(up.as_slice());
        let name = connection_bytes();
        let connection_upgrade = self.request_headers.contains_token(name.as_slice(), up.as_slice());
        let switching = match self.status {
            Some(s) => s == 101,
            None => false,
        };
        has_upgrade_header && connection_upgrade && switching
    }

    /// Decides what follows a written response: closing wins over an
    /// upgrade, and otherwise the next head is read from the same stream.
    pub fn finish(self) -> (r: Finish)
        requires
            self.wf(),
        ensures
            if closes(self@) {
                r is Close
            } else if upgrades(self@) {
                (r matches Finish::Upgrade(u) && u.request_headers@ == self@.request_headers
                    && u.path@ == self@.path && u.method@ == self@.method && carried(
                    self@.buffer,
                    u.buffer,
                ))
            } else {
                (r matches Finish::Next(b) && carried(self@.buffer, b))
            },
    {
        if self.should_close() {
            Finish::Close
        } else if self.should_upgrade() {
            Finish::Upgrade(
                Upgrade {
                    request_headers: self.request_headers,
                    path: self.path,
                    method: self.method,
                    buffer: carry(self.buffer),
                },
            )
        } else {
            Finish::Next(carry(self.buffer))
        }
    }

    /// The request-target as sent.
    pub fn path(&self) -> (r: &str)
        ensures
            r@ == self@.path,
    {
        self.path.as_str()
    }

    /// The canonical name of the request method.
    pub fn method(&self) -> (r: &[u8])
        ensures
            r@ == self@.method,
    {
        self.method.as_slice()
    }

    /// The response status, where one is set.
    pub fn status(&self) -> (r: Option<u16>)
        ensures
            r == self@.status,
    {
        self.status
    }

    /// Sets the response status; a code that names no known status clears it.
    pub fn set_status(&mut self, code: u16)
        ensures
            final(self)@ == (ConnView {
                status: if reason_of(code) is Some {
                    Some(code)
                } else {
                    None
                },
                ..old(self)@
            }),
    {
        self.status = match status_reason(code) {
            Some(_) => Some(code),
            None => None,
        };
    }

    /// Whether the transport is held to be secure.
    pub fn is_secure(&self) -> (r: bool)
        ensures
            r == self@.secure,
    {
        self.secure
    }

    /// Marks the transport as secure or not, as decided outside this library.
    pub fn set_secure(&mut self, secure: bool)
        ensures
            final(self)@ == (ConnView { secure, ..old(self)@ }),
    {
        self.secure = secure;
    }

    /// The request headers.
    pub fn request_headers(&self) -> (r: &Headers)
        ensures
            r@ == self@.request_headers,
    {
        &self.request_headers
    }

    /// The response headers.
    pub fn response_headers(&self) -> (r: &Headers)
        ensures
            r@ == self@.response_headers,
    {
        &self.response_headers
    }

    /// Sets a response header to a single value.
    pub fn insert_response_header(&mut self, name: &[u8], value: &[u8])
        requires
            old(self).wf(),
        ensures
            final(self).wf(),
            final(self)@ == (ConnView { response_headers: final(self)@.response_headers, ..old(self)@ }),
            header_get(final(self)@.response_headers, name@) == Some(seq![value@]),
            forall|k: Seq<u8>|
                k != lower(name@) ==> #[trigger] values_of(final(self)@.response_headers, k)
                    == values_of(old(self)@.response_headers, k),
    {
        self.response_headers.insert(name, value);
    }

    /// The first value of the `Host` header, if there is one.
    pub fn host(&self) -> (r: Option<Vec<u8>>)
        requires
            self.wf(),
        ensures
            match header_get(self@.request_headers, crate::names::host()) {
                Some(vals) => (r matches Some(h) && h@ == vals[0]),
                None => r is None,
            },
    {
        let name = crate::names::host_bytes();
        match self.request_headers.get(name.as_slice()) {
            Some(vals) => {
                assert(crate::headers::strings_view(*vals)[0] == vals@[0]@);
                Some(slice_to_vec(vals[0].as_slice()))
            },
            None => None,
        }
    }

    /// What follows the first `?` of the request-target; empty when there is
    /// no `?`.
    pub fn querystring(&self) -> (r: Vec<u8>)
        ensures
            r@ == query_of(encode_utf8(self@.path)),
    {
        let b = self.path.as_str().as_bytes();
        let mut i: usize = 0;
        while i < b.len() && b[i] != 63
            invariant
                i <= b.len(),
                b@ == encode_utf8(self@.path),
                forall|k: int| 0 <= k < i ==> b@[k] != 63,
            decreases b.len() - i,
        {
            i += 1;
        }
        let mut r: Vec<u8> = Vec::new();
        if i < b.len() {
            let mut j: usize = i + 1;
            while j < b.len()
                invariant
                    i < j <= b.len(),
                    r@ == b@.subrange(i + 1, j as int),
                decreases b.len() - j,
            {
                r.push(b[j]);
                j += 1;
                assert(r@ =~= b@.subrange(i + 1, j as int));
            }
            proof {
                lemma_query_at(b@, i as int);
            }
        } else {
            proof {
                lemma_query_none(b@);
            }
            assert(r@ =~= Seq::<u8>::empty());
        }
        r
    }

    /// The text of the request's URL: an absolute target as it is; an
    /// origin-form target (starting with `/`) under `http://` and the `Host`
    /// value (`_` without one); for CONNECT, the authority under `http://`
    /// with a `/` path. Any other target has no URL.
    pub fn url_text(&self) -> (r: Option<Vec<u8>>)
        requires
            self.wf(),
        ensures
            match url_text_of(encode_utf8(self@.path), host_or_default(self@), self@.method) {
                Some(t) => (r matches Some(v) && v@ == t),
                None => r is None,
            },
    {
        let p = self.path.as_str().as_bytes();
        let http = http_scheme_bytes();
        let https = https_scheme_bytes();
        if starts_with(p, http.as_slice()) || starts_with(p, https.as_slice()) {
            return Some(slice_to_vec(p));
        }
        let host = match self.host() {
            Some(h) => h,
            None => vec![95u8],
        };
        if p.len() > 0 && p[0] == 47 {
            let mut out = http_scheme_bytes();
            out.extend_from_slice(host.as_slice());
            out.extend_from_slice(p);
            return Some(out);
        }
        let connect = crate::names::connect_method_bytes();
        if crate::bytes::compare(self.method.as_slice(), connect.as_slice()) == 0 {
            let mut out = http_scheme_bytes();
            out.extend_from_slice(p);
            out.push(47u8);
            return Some(out);
        }
        None
    }

    /// The request's URL, read from its request-target.
    pub fn url(&self) -> (r: Result<http_types::Url, Error>)
        requires
            self.wf(),
        ensures
            match url_text_of(encode_utf8(self@.path), host_or_default(self@), self@.method) {
                None => r == Err::<http_types::Url, Error>(Error::UnexpectedURIFormat),
                Some(t) => if valid_utf8(t) && url_accepts(decode_utf8(t)) {
                    r is Ok
                } else {
                    r == Err::<http_types::Url, Error>(Error::Url)
                },
            },
    {
        match self.url_text() {
            None => Err(Error::UnexpectedURIFormat),
            Some(t) => match str_from_utf8(t.as_slice()) {
                None => Err(Error::Url),
                Some(text) => {
                    proof {
                        encode_utf8_decode_utf8(text@);
                    }
                    match parse_url(text) {
                        Some(u) => Ok(u),
                        None => Err(Error::Url),
                    }
                },
            },
        }
    }

    /// Sets the response body, and its media type as `Content-Type` unless
    /// one is set already.
    pub fn set_body(&mut self, body: Body)
        requires
            old(self).wf(),
        ensures
            final(self).wf(),
            final(self)@ == (ConnView {
                response_headers: final(self)@.response_headers,
                body: Some(body),
                ..old(self)@
            }),
            header_get(old(self)@.response_headers, content_type()) is Some ==> final(self)@.response_headers
                == old(self)@.response_headers,
            header_get(old(self)@.response_headers, content_type()) is None ==> header_get(
                final(self)@.response_headers,
                content_type(),
            ) == Some(seq![body.spec_mime()]),
            forall|k: Seq<u8>|
                k != content_type() ==> #[trigger] values_of(final(self)@.response_headers, k)
                    == values_of(old(self)@.response_headers, k),
    {
        let name = content_type_bytes();
        proof {
            lemma_lower_literals();
        }
        if !self.response_headers.has(name.as_slice()) {
            self.response_headers.insert(name.as_slice(), body.mime().as_slice());
        }
        self.response_body = Some(body);
    }

    /// The response body, if one is set.
    pub fn response_body(&self) -> (r: Option<&Body>)
        ensures
            match r {
                Some(b) => self@.body == Some(*b),
                None => self@.body is None,
            },
    {
        match &self.response_body {
            Some(b) => Some(b),
            None => None,
        }
    }

    /// The response body's length where it is known ahead: zero without a body.
    pub fn body_len(&self) -> (r: Option<usize>)
        ensures
            match r {
                Some(n) => body_len_of(self@.body) == Some(n as nat),
                None => body_len_of(self@.body) is None,
            },
    {
        match &self.response_body {
            Some(b) => b.len(),
            None => Some(0),
        }
    }

    /// Takes the bytes read past the head that have not been used yet.
    pub fn take_buffer(&mut self) -> (r: Vec<u8>)
        ensures
            r@ == old(self)@.buffer,
            final(self)@ == (ConnView { buffer: Seq::empty(), ..old(self)@ }),
    {
        let mut r: Vec<u8> = Vec::new();
        std::mem::swap(&mut r, &mut self.buffer);
        r
    }

    /// The state of the request body.
    pub fn request_body_state(&self) -> (r: RequestBodyState)
        ensures
            r == self@.state,
    {
        self.request_body_state
    }

    /// Whether the client asked for `100 Continue` before sending its body.
    pub fn needs_100_continue(&self) -> (r: bool)
        requires
            self.wf(),
        ensures
            r == wants_continue(self@),
    {
        let name = expect_bytes();
        let value = continue_100_bytes();
        self.request_headers.contains_ignore_ascii_case(name.as_slice(), value.as_slice())
    }

    /// The request's declared body length: its last `Content-Length` value.
    pub fn request_content_length(&self) -> (r: Result<Option<u64>, Error>)
        requires
            self.wf(),
        ensures
            match declared_length(self@) {
                None => r == Ok::<Option<u64>, Error>(None),
                Some(Some(n)) => r == Ok::<Option<u64>, Error>(Some(n)),
                Some(None) => (r matches Err(Error::MalformedHeader(h)) && h@ == "content-length"@),
            },
    {
        let name = content_length_bytes();
        match self.request_headers.get(name.as_slice()) {
            None => Ok(None),
            Some(vals) => {
                let last = vals.len() - 1;
                assert(crate::headers::strings_view(*vals)[last as int] == vals@[last as int]@);
                match parse_content_length(vals[last].as_slice()) {
                    Some(n) => Ok(Some(n)),
                    None => {
                        proof {
                            reveal_strlit("content-length");
                        }
                        Err(Error::MalformedHeader("content-length".to_owned()))
                    },
                }
            },
        }
    }

    /// Decides how the request body is framed, the first time it is needed;
    /// afterwards it changes nothing. Says whether `100 Continue` must be
    /// written first; the framing may fail after that.
    pub fn initialize_request_body_state(&mut self) -> (r: (bool, Result<(), Error>))
        requires
            old(self).wf(),
        ensures
            final(self).wf(),
            old(self)@.state != RequestBodyState::Start ==> final(self)@ == old(self)@ && r.0 == false
                && r.1 is Ok,
            old(self)@.state == RequestBodyState::Start ==> r.0 == wants_continue(old(self)@)
                && match declared_length(old(self)@) {
                Some(None) => (r.1 matches Err(Error::MalformedHeader(h)) && h@ == "content-length"@)
                    && final(self)@ == old(self)@,
                Some(Some(n)) => if declares_chunked(old(self)@) {
                    (r.1 matches Err(Error::UnexpectedHeader(h)) && h@ == "content-length"@)
                        && final(self)@ == old(self)@
                } else {
                    r.1 is Ok && final(self)@ == (ConnView {
                        state: RequestBodyState::FixedLength { current_index: 0, total_length: n },
                        ..old(self)@
                    })
                },
                None => r.1 is Ok && final(self)@ == (ConnView {
                    state: if declares_chunked(old(self)@) {
                        RequestBodyState::Chunked { chunk: chunk_start() }
                    } else {
                        RequestBodyState::End
                    },
                    ..old(self)@
                }),
            },
    {
        match self.request_body_state {
            RequestBodyState::Start => {},
            _ => return (false, Ok(())),
        }
        let send_continue = self.needs_100_continue();
        let content_length = match self.request_content_length() {
            Ok(cl) => cl,
            Err(e) => return (send_continue, Err(e)),
        };
        let te = transfer_encoding_bytes();
        let ch = chunked_bytes();
        let transfer_encoding_chunked = self.request_headers.contains_token(te.as_slice(), ch.as_slice());
        if content_length.is_some() && transfer_encoding_chunked {
            proof {
                reveal_strlit("content-length");
            }
            return (send_continue, Err(Error::UnexpectedHeader("content-length".to_owned())));
        }
        self.request_body_state = if transfer_encoding_chunked {
            RequestBodyState::Chunked { chunk: ChunkState::Size { value: 0, any: false } }
        } else {
            match content_length {
                Some(total_length) => RequestBodyState::FixedLength { current_index: 0, total_length },
                None => RequestBodyState::End,
            }
        };
        (send_continue, Ok(()))
    }

    /// Reads body bytes of a fixed-length body out of `input`: as many as are
    /// still owed, at most. What is left over is kept for the next request.
    pub fn read_fixed(&mut self, input: Vec<u8>) -> (r: Vec<u8>)
        requires
            old(self).wf(),
        ensures
            final(self).wf(),
            fixed_read(old(self)@, final(self)@, input@, r@),
    {
        let ghost g = input@;
        let n: usize = match self.request_body_state {
            RequestBodyState::FixedLength { current_index, total_length } => {
                let owed = total_length - current_index;
                let n: usize = if (input.len() as u64) <= owed { input.len() } else { owed as usize };
                let next_index = current_index + n as u64;
                self.request_body_state = if next_index == total_length {
                    RequestBodyState::End
                } else {
                    RequestBodyState::FixedLength { current_index: next_index, total_length }
                };
                n
            },
            _ => 0,
        };
        let mut body = input;
        let mut rest = body.split_off(n);
        self.buffer.append(&mut rest);
        body
    }

    /// Reads body bytes of a chunked body out of `input`, decoding its
    /// frames. Once the body ends the state is `End`, and what follows it is
    /// kept for the next request. A break of the chunk grammar is an error
    /// and changes nothing.
    pub fn read_chunked(&mut self, input: Vec<u8>) -> (r: Result<Vec<u8>, Error>)
        requires
            old(self).wf(),
            old(self)@.state is Chunked,
        ensures
            final(self).wf(),
            chunk_read(old(self)@, final(self)@, input@, r),
    {
        let cs = match self.request_body_state {
            RequestBodyState::Chunked { chunk } => chunk,
            _ => ChunkState::Done,
        };
        let res = decode_chunks(cs, input.as_slice());
        match res {
            Err(e) => Err(e),
            Ok((s2, data, used)) => {
                self.request_body_state = if s2 == ChunkState::Done {
                    RequestBodyState::End
                } else {
                    RequestBodyState::Chunked { chunk: s2 }
                };
                let mut rest = input;
                let mut tail = rest.split_off(used);
                self.buffer.append(&mut tail);
                Ok(data)
            },
        }
    }

    /// Reads body bytes out of `input` as the framing decides: fixed-length
    /// or chunked. Where there is no body to read (its framing is not decided
    /// yet, or it has ended) nothing is taken and the input is kept for the
    /// next request.
    pub fn read_body(&mut self, input: Vec<u8>) -> (r: Result<Vec<u8>, Error>)
        requires
            old(self).wf(),
        ensures
            final(self).wf(),
            match old(self)@.state {
                RequestBodyState::FixedLength { .. } => (r matches Ok(data) && fixed_read(
                    old(self)@,
                    final(self)@,
                    input@,
                    data@,
                )),
                RequestBodyState::Chunked { .. } => chunk_read(old(self)@, final(self)@, input@, r),
                _ => (r matches Ok(data) && data@.len() == 0 && final(self)@ == (ConnView {
                    buffer: old(self)@.buffer + input@,
                    ..old(self)@
                })),
            },
    {
        match self.request_body_state {
            RequestBodyState::FixedLength { .. } => Ok(self.read_fixed(input)),
            RequestBodyState::Chunked { .. } => self.read_chunked(input),
            _ => {
                let mut rest = input;
                self.buffer.append(&mut rest);
                Ok(Vec::new())
            },
        }
    }

    /// Whether the request body has been read to its end (or there is none).
    pub fn body_complete(&self) -> (r: bool)
        ensures
            r == (self@.state == RequestBodyState::End),
    {
        match self.request_body_state {
            RequestBodyState::End => true,
            _ => false,
        }
    }

    /// Puts the status line and finalized headers of the response into
    /// bytes, with `date` as the `Date` value where none is set.
    pub fn head_bytes_with_date(&mut self, date: &[u8]) -> (r: Vec<u8>)
        requires
            old(self).wf(),
        ensures
            final(self).wf(),
            finalized(old(self)@.response_headers, final(self)@.response_headers, body_len_of(old(self)@.body), date@),
            final(self)@ == (ConnView { response_headers: final(self)@.response_headers, ..old(self)@ }),
            r@ == status_line(old(self)@.status) + header_lines(final(self)@.response_headers) + crlf(),
    {
        let code: u16 = match self.status {
            Some(c) => c,
            None => 404,
        };
        let mut out = http11_bytes();
        push_decimal(&mut out, code as u64);
        out.push(32u8);
        match status_reason(code) {
            Some(reason) => {
                let mut reason = reason;
                out.append(&mut reason);
            },
            None => {},
        }
        out.push(13u8);
        out.push(10u8);
        proof {
            assert(out@ =~= status_line(self@.status));
        }
        self.finalize_headers_with_date(date);
        self.response_headers.write_lines(&mut out);
        out.push(13u8);
        out.push(10u8);
        assert(out@ =~= status_line(old(self)@.status) + header_lines(self@.response_headers) + crlf());
        out
    }

    /// Sets the framing and `Date` headers of the response, with `date` as the
    /// `Date` value where none is set.
    pub fn finalize_headers_with_date(&mut self, date: &[u8])
        requires
            old(self).wf(),
        ensures
            final(self).wf(),
            finalized(old(self)@.response_headers, final(self)@.response_headers, body_len_of(old(self)@.body), date@),
            final(self)@ == (ConnView { response_headers: final(self)@.response_headers, ..old(self)@ }),
    {
        proof {
            lemma_lower_literals();
        }
        let ghost start = self.response_headers@;
        let te = transfer_encoding_bytes();
        if !self.response_headers.has(te.as_slice()) {
            match self.body_len() {
                Some(len) => {
                    let mut value: Vec<u8> = Vec::new();
                    push_decimal(&mut value, len as u64);
                    let cl = content_length_bytes();
                    self.response_headers.insert(cl.as_slice(), value.as_slice());
                },
                None => {
                    let ch = chunked_bytes();
                    self.response_headers.insert(te.as_slice(), ch.as_slice());
                },
            }
        }
        let ghost mid = self.response_headers@;
        let d = date_bytes();
        if !self.response_headers.has(d.as_slice()) {
            self.response_headers.insert(d.as_slice(), date);
        }
        proof {
            let fin = self.response_headers@;
            assert forall|k: Seq<u8>|
                k != lower(transfer_encoding()) && k != lower(content_length()) && k != lower(crate::names::date())
                implies #[trigger] values_of(fin, k) == values_of(start, k) by {
                assert(values_of(fin, k) == values_of(mid, k));
            }
        }
    }

    /// Puts the status line and finalized headers of the response into bytes.
    pub fn head_bytes(&mut self) -> (r: Vec<u8>)
        requires
            old(self).wf(),
        ensures
            final(self).wf(),
            exists|d: Seq<u8>| finalized(old(self)@.response_headers, final(self)@.response_headers, body_len_of(old(self)@.body), d),
            final(self)@ == (ConnView { response_headers: final(self)@.response_headers, ..old(self)@ }),
            r@ == status_line(old(self)@.status) + header_lines(final(self)@.response_headers) + crlf(),
    {
        let date = http_date_now();
        self.head_bytes_with_date(date.as_slice())
    }

    /// Writes the response head, and hands out the body to be sent unless the
    /// request is a HEAD request; `date` is the `Date` value where none is set.
    pub fn encode_with_date(&mut self, date: &[u8]) -> (r: Encoded)
        requires
            old(self).wf(),
        ensures
            final(self).wf(),
            finalized(old(self)@.response_headers, final(self)@.response_headers, body_len_of(old(self)@.body), date@),
            r.head@ == status_line(old(self)@.status) + header_lines(final(self)@.response_headers) + crlf(),
            old(self)@.method == head_method() ==> r.body is None,
            old(self)@.method != head_method() ==> r.body == old(self)@.body,
            final(self)@ == (ConnView {
                response_headers: final(self)@.response_headers,
                body: if old(self)@.method == head_method() { old(self)@.body } else { None },
                ..old(self)@
            }),
    {
        let head = self.head_bytes_with_date(date);
        let hm = head_method_bytes();
        let is_head = crate::bytes::compare(self.method.as_slice(), hm.as_slice()) == 0;
        let body = if is_head {
            None
        } else {
            let mut b: Option<Body> = None;
            std::mem::swap(&mut b, &mut self.response_body);
            b
        };
        Encoded { head, body }
    }

    /// Writes the response head, and hands out the body to be sent unless the
    /// request is a HEAD request.
    pub fn encode(&mut self) -> (r: Encoded)
        requires
            old(self).wf(),
        ensures
            final(self).wf(),
            exists|d: Seq<u8>| finalized(old(self)@.response_headers, final(self)@.response_headers, body_len_of(old(self)@.body), d),
            r.head@ == status_line(old(self)@.status) + header_lines(final(self)@.response_headers) + crlf(),
            old(self)@.method == head_method() ==> r.body is None,
            old(self)@.method != head_method() ==> r.body == old(self)@.body,
    {
        let date = http_date_now();
        self.encode_with_date(date.as_slice())
    }
}

/// One fixed-length read of `input`: the bytes still owed come out, the
/// state moves on, and the rest is kept for the next request.
pub open spec fn fixed_read(old: ConnView, new: ConnView, input: Seq<u8>, data: Seq<u8>) -> bool {
    let (n, next) = fixed_step(old.state, input.len());
    &&& data == input.subrange(0, n as int)
    &&& new == (ConnView {
        state: next,
        buffer: old.buffer + input.subrange(n as int, input.len() as int),
        ..old
    })
}

/// One read of chunked body bytes `input`: a break of the chunk grammar
/// changes nothing; otherwise the body bytes come out, the state moves on
/// (to `End` once the body ends), and the input that follows the body is
/// kept for the next request.
pub open spec fn chunk_read(old: ConnView, new: ConnView, input: Seq<u8>, r: Result<Vec<u8>, Error>) -> bool {
    let cs = old.state->chunk;
    match r {
        Err(e) => e == Error::MalformedChunk && chunk_run(cs, input) is None && new == old,
        Ok(data) => (chunk_run(cs, input) matches Some((s2, out)) && out == data@ && exists|used: usize|
            {
                &&& used <= input.len()
                &&& #[trigger] chunk_run(cs, input.subrange(0, used as int)) == Some((s2, out))
                &&& new == (ConnView {
                    state: if s2 == ChunkState::Done {
                        RequestBodyState::End
                    } else {
                        RequestBodyState::Chunked { chunk: s2 }
                    },
                    buffer: old.buffer + input.subrange(used as int, input.len() as int),
                    ..old
                })
            }),
    }
}

/// `p` starts `s`.
pub open spec fn prefix_of(p: Seq<u8>, s: Seq<u8>) -> bool {
    p.len() <= s.len() && s.subrange(0, p.len() as int) == p
}

/// `http://`.
pub open spec fn http_scheme() -> Seq<u8> {
    seq![104u8, 116u8, 116u8, 112u8, 58u8, 47u8, 47u8]
}

/// `https://`.
pub open spec fn https_scheme() -> Seq<u8> {
    seq![104u8, 116u8, 116u8, 112u8, 115u8, 58u8, 47u8, 47u8]
}

fn http_scheme_bytes() -> (r: Vec<u8>)
    ensures
        r@ == http_scheme(),
{
    let r: Vec<u8> = vec![104u8, 116u8, 116u8, 112u8, 58u8, 47u8, 47u8];
    assert(r@ =~= http_scheme());
    r
}

fn https_scheme_bytes() -> (r: Vec<u8>)
    ensures
        r@ == https_scheme(),
{
    let r: Vec<u8> = vec![104u8, 116u8, 116u8, 112u8, 115u8, 58u8, 47u8, 47u8];
    assert(r@ =~= https_scheme());
    r
}

/// Whether `s` starts with `p`.
pub fn starts_with(s: &[u8], p: &[u8]) -> (r: bool)
    ensures
        r == prefix_of(p@, s@),
{
    if p.len() > s.len() {
        return false;
    }
    let mut i: usize = 0;
    while i < p.len()
        invariant
            p.len() <= s.len(),
            i <= p.len(),
            forall|k: int| 0 <= k < i ==> s@[k] == p@[k],
        decreases p.len() - i,
    {
        if s[i] != p[i] {
            assert(s@.subrange(0, p.len() as int)[i as int] != p@[i as int]);
            return false;
        }
        i += 1;
    }
    assert(s@.subrange(0, p.len() as int) =~= p@);
    true
}

/// The first `Host` value, or `_` without one.
pub open spec fn host_or_default(v: ConnView) -> Seq<u8> {
    match header_get(v.request_headers, crate::names::host()) {
        Some(vals) => vals[0],
        None => seq![95u8],
    }
}

/// The text of a request's URL from its target, host and method.
pub open spec fn url_text_of(path: Seq<u8>, host: Seq<u8>, method: Seq<u8>) -> Option<Seq<u8>> {
    if prefix_of(http_scheme(), path) || prefix_of(https_scheme(), path) {
        Some(path)
    } else if path.len() > 0 && path[0] == 47 {
        Some(http_scheme() + host + path)
    } else if method == crate::names::connect_method() {
        Some(http_scheme() + path + seq![47u8])
    } else {
        None
    }
}

/// A fixed-length body never reads past its length.
pub open spec fn state_wf(s: RequestBodyState) -> bool {
    s matches RequestBodyState::FixedLength { current_index, total_length } ==> current_index
        <= total_length
}

/// A response ready to be written: its head, then its body, if any is sent.
#[derive(Debug)]
pub struct Encoded {
    pub head: Vec<u8>,
    pub body: Option<Body>,
}

/// The client asked for `100 Continue`.
pub open spec fn wants_continue(v: ConnView) -> bool {
    some_value_contains(header_get(v.request_headers, expect()), continue_100())
}

/// The request declares a chunked body.
pub open spec fn declares_chunked(v: ConnView) -> bool {
    some_value_has_token(header_get(v.request_headers, transfer_encoding()), chunked())
}

/// The request's declared length: `None` without `Content-Length`, else the
/// reading of its last value (`None` inside where it is malformed).
pub open spec fn declared_length(v: ConnView) -> Option<Option<u64>> {
    match header_get(v.request_headers, content_length()) {
        None => None,
        Some(vals) => Some(content_length_value(vals.last())),
    }
}

/// A response body's length where it is known ahead: zero without a body.
pub open spec fn body_len_of(b: Option<Body>) -> Option<nat> {
    match b {
        Some(body) => body.spec_len(),
        None => Some(0),
    }
}

/// The status line for a status, `404 Not Found` where none is set.
pub open spec fn status_line(status: Option<u16>) -> Seq<u8> {
    let code = match status {
        Some(c) => c,
        None => 404u16,
    };
    let reason = match reason_of(code) {
        Some(r) => r,
        None => Seq::empty(),
    };
    http11() + decimal(code as nat) + seq![32u8] + reason + crlf()
}

/// One fixed-length read of `n` available bytes: how many belong to the body,
/// and the state after it. Other states take nothing.
pub open spec fn fixed_step(s: RequestBodyState, n: nat) -> (nat, RequestBodyState) {
    match s {
        RequestBodyState::FixedLength { current_index, total_length } => {
            let owed = (total_length - current_index) as nat;
            let k = if n <= owed { n } else { owed };
            (k, if current_index + k == total_length {
                RequestBodyState::End
            } else {
                RequestBodyState::FixedLength { current_index: (current_index + k) as u64, total_length }
            })
        },
        _ => (0, s),
    }
}

/// The response headers after finalizing: framing is set from the body's
/// length unless `Transfer-Encoding` was set already, `Date` is set unless
/// it was, and nothing else changes.
pub open spec fn finalized(old: Seq<EntryView>, new: Seq<EntryView>, len: Option<nat>, d: Seq<u8>) -> bool {
    let te = header_get(old, transfer_encoding());
    &&& header_get(new, transfer_encoding()) == (if te is None && len is None {
        Some(seq![chunked()])
    } else {
        te
    })
    &&& header_get(new, content_length()) == (if te is None && len is Some {
        Some(seq![decimal(len->0)])
    } else {
        header_get(old, content_length())
    })
    &&& header_get(new, date()) == (if header_get(old, date()) is Some {
        header_get(old, date())
    } else {
        Some(seq![d])
    })
    &&& forall|k: Seq<u8>|
        k != transfer_encoding() && k != content_length() && k != date() ==> #[trigger] values_of(new, k)
            == values_of(old, k)
}

/// What follows the first `?` of a request-target; empty without one.
pub open spec fn query_of(b: Seq<u8>) -> Seq<u8> {
    if exists|i: int| 0 <= i < b.len() && b[i] == 63 {
        let i = choose|i: int| 0 <= i < b.len() && b[i] == 63 && forall|k: int| 0 <= k < i ==> b[k] != 63;
        b.subrange(i + 1, b.len() as int)
    } else {
        Seq::empty()
    }
}

proof fn lemma_query_at(b: Seq<u8>, i: int)
    requires
        0 <= i < b.len(),
        b[i] == 63,
        forall|k: int| 0 <= k < i ==> b[k] != 63,
    ensures
        query_of(b) == b.subrange(i + 1, b.len() as int),
{
    let j = choose|j: int| 0 <= j < b.len() && b[j] == 63 && forall|k: int| 0 <= k < j ==> b[k] != 63;
    assert(j == i);
}

proof fn lemma_query_none(b: Seq<u8>)
    requires
        forall|k: int| 0 <= k < b.len() ==> b[k] != 63,
    ensures
        query_of(b) == Seq::<u8>::empty(),
{
}

/// The header names used here are already in lower case.
pub proof fn lemma_lower_literals()
    ensures
        lower(transfer_encoding()) == transfer_encoding(),
        lower(content_length()) == content_length(),
        lower(content_type()) == content_type(),
        lower(date()) == date(),
{
    assert(lower(transfer_encoding()) =~= transfer_encoding());
    assert(lower(content_length()) =~= content_length());
    assert(lower(content_type()) =~= content_type());
    assert(lower(date()) =~= date());
}

} // verus!
