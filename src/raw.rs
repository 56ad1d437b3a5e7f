use vstd::prelude::*;

verus! {

/// The most header lines a request head may carry.
pub const MAX_HEADERS: usize = 128;

/// A request head as the tokenizer leaves it, before any rule of this
/// library is applied.
#[derive(Debug)]
pub struct RawHead {
    /// Whether the tokenizer saw the whole head.
    pub complete: bool,
    pub method: Option<String>,
    pub path: Option<String>,
    pub version: Option<u8>,
    /// Each header line as name and value bytes, in order.
    pub headers: Vec<(Vec<u8>, Vec<u8>)>,
}

/// A tokenized request head as plain values.
pub struct RawHeadView {
    pub complete: bool,
    pub method: Option<Seq<char>>,
    pub path: Option<Seq<char>>,
    pub version: Option<u8>,
    pub headers: Seq<(Seq<u8>, Seq<u8>)>,
}

pub open spec fn opt_string_view(s: Option<String>) -> Option<Seq<char>> {
    match s {
        Some(x) => Some(x@),
        None => None,
    }
}

impl View for RawHead {
    type V = RawHeadView;

    open spec fn view(&self) -> RawHeadView {
        RawHeadView {
            complete: self.complete,
            method: opt_string_view(self.method),
            path: opt_string_view(self.path),
            version: self.version,
            headers: self.headers@.map_values(|h: (Vec<u8>, Vec<u8>)| (h.0@, h.1@)),
        }
    }
}

/// What the HTTP/1.x request tokenizer makes of a byte buffer; `None` where
/// it rejects the bytes.
pub uninterp spec fn tokenized_request(b: Seq<u8>) -> Option<RawHeadView>;

/// Relies on `httparse::Request::parse` with room for `MAX_HEADERS` headers:
/// an error comes back as `None`; otherwise whether the head was complete,
/// its method, path and version, and its header lines, which never number
/// more than the room given.
#[verifier::external_body]
pub(crate) fn tokenize_request(buf: &[u8]) -> (r: Option<RawHead>)
    ensures
        match r {
            Some(h) => tokenized_request(buf@) == Some(h@) && h.headers@.len() <= MAX_HEADERS,
            None => tokenized_request(buf@) is None,
        },
{
    let mut headers = [httparse::EMPTY_HEADER; MAX_HEADERS];
    let mut req = httparse::Request::new(&mut headers);
    let status = req.parse(buf).ok()?;
    Some(RawHead {
        complete: status.is_complete(),
        method: req.method.map(String::from),
        path: req.path.map(String::from),
        version: req.version,
        headers: req.headers.iter().map(|h| (h.name.as_bytes().to_vec(), h.value.to_vec())).collect(),
    })
}

/// The canonical (upper-case) name of the method that a request-line token
/// names, where the token names a known method.
pub uninterp spec fn method_of(s: Seq<char>) -> Option<Seq<u8>>;

/// Relies on `http_types::Method`'s `FromStr` (which ignores ASCII case) and
/// its `AsRef<str>`: the canonical name of the method, or `None` for a token
/// that names none.
#[verifier::external_body]
pub(crate) fn parse_method(s: &str) -> (r: Option<Vec<u8>>)
    ensures
        match r {
            Some(m) => method_of(s@) == Some(m@),
            None => method_of(s@) is None,
        },
{
    let m: http_types::Method = s.parse().ok()?;
    Some(AsRef::<str>::as_ref(&m).as_bytes().to_vec())
}

/// The canonical reason phrase of a status code, where the code is known.
pub uninterp spec fn reason_of(code: u16) -> Option<Seq<u8>>;

/// Relies on `http_types::StatusCode`'s `TryFrom<u16>` and `canonical_reason`:
/// the reason phrase of a known code, `None` for an unknown one.
#[verifier::external_body]
pub(crate) fn status_reason(code: u16) -> (r: Option<Vec<u8>>)
    ensures
        match r {
            Some(m) => reason_of(code) == Some(m@),
            None => reason_of(code) is None,
        },
{
    let s = http_types::StatusCode::try_from(code).ok()?;
    Some(s.canonical_reason().as_bytes().to_vec())
}

/// Relies on `http_types::other::Date::now` and its header value: the current
/// time as an HTTP date. Nothing is stated of it, as it depends on the clock.
#[verifier::external_body]
pub(crate) fn http_date_now() -> (r: Vec<u8>) {
    http_types::other::Date::now().value().as_str().as_bytes().to_vec()
}

#[verifier::external_type_specification]
#[verifier::external_body]
pub struct ExUrl(http_types::Url);

/// Whether the URL parser accepts the text.
pub uninterp spec fn url_accepts(text: Seq<char>) -> bool;

/// Relies on `url::Url::parse` (re-exported by `http_types`): the parsed
/// URL where the parser accepts the text, `None` otherwise.
#[verifier::external_body]
pub(crate) fn parse_url(text: &str) -> (r: Option<http_types::Url>)
    ensures
        r is Some <==> url_accepts(text@),
{
    http_types::Url::parse(text).ok()
}

} // verus!
