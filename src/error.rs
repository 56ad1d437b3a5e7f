use vstd::prelude::*;

verus! {

/// Every way in which reading or answering one request can fail.
#[derive(Debug, PartialEq, Eq)]
pub enum Error {
    /// The peer closed the stream before sending any byte of a new head.
    ClosedByClient,
    /// The peer closed the stream in the middle of a head.
    PartialHead,
    /// The head grew to the size limit without a blank line.
    HeadersTooLong,
    /// The head could not be tokenized as an HTTP request.
    Httparse,
    /// The request line carries no method.
    MissingMethod,
    /// The method is not one that is known.
    UnrecognizedMethod(String),
    /// The request line carries no version.
    MissingVersion,
    /// The request line carries a version other than HTTP/1.1.
    UnsupportedVersion(u8),
    /// The request line carries no request-target.
    RequestPathMissing,
    /// A header value is not valid UTF-8.
    Utf8,
    /// A header that must not be present in this combination.
    UnexpectedHeader(String),
    /// A header value that cannot be read.
    MalformedHeader(String),
    /// The chunked request body breaks its grammar.
    MalformedChunk,
    /// The request-target has none of the accepted forms.
    UnexpectedURIFormat,
    /// The request-target could not be parsed as a URL.
    Url,
}

} // verus!
