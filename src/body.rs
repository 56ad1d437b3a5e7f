use crate::text::{hex, push_hex};
use vstd::prelude::*;
use vstd::slice::slice_to_vec;
use vstd::string::StringSliceAdditionalSpecFns;

verus! {

/// An outgoing response body: its bytes when they are held, so that its length
/// is known ahead; or a stream whose chunks come later and whose length is not.
#[derive(Debug)]
pub enum Body {
    Fixed { bytes: Vec<u8>, mime: Vec<u8> },
    Streaming { mime: Vec<u8> },
}

impl Body {
    /// The body's length, where it is known ahead.
    pub open spec fn spec_len(&self) -> Option<nat> {
        match self {
            Body::Fixed { bytes, .. } => Some(bytes@.len()),
            Body::Streaming { .. } => None,
        }
    }

    /// The body's media type.
    pub open spec fn spec_mime(&self) -> Seq<u8> {
        match self {
            Body::Fixed { mime, .. } => mime@,
            Body::Streaming { mime } => mime@,
        }
    }

    /// A body whose bytes are all given now.
    pub fn from_bytes(bytes: Vec<u8>, mime: Vec<u8>) -> (r: Body)
        ensures
            r == (Body::Fixed { bytes, mime }),
    {
        Body::Fixed { bytes, mime }
    }

    /// A body whose bytes will come from a stream of unknown length.
    pub fn streaming(mime: Vec<u8>) -> (r: Body)
        ensures
            r == (Body::Streaming { mime }),
    {
        Body::Streaming { mime }
    }

    /// The body's length, where it is known ahead.
    pub fn len(&self) -> (r: Option<usize>)
        ensures
            match r {
                Some(n) => self.spec_len() == Some(n as nat),
                None => self.spec_len() is None,
            },
    {
        match self {
            Body::Fixed { bytes, .. } => Some(bytes.len()),
            Body::Streaming { .. } => None,
        }
    }

    /// The body's media type.
    pub fn mime(&self) -> (r: &Vec<u8>)
        ensures
            r@ == self.spec_mime(),
    {
        match self {
            Body::Fixed { mime, .. } => mime,
            Body::Streaming { mime } => mime,
        }
    }
}

/// The media type registered for a file extension (or for the extension
/// after the last `.` of a file name).
pub uninterp spec fn mime_of(extension: Seq<char>) -> Option<Seq<u8>>;

/// Relies on `mime_db::lookup`: the media type registered for the
/// extension; none for an empty one.
#[verifier::external_body]
fn lookup_mime(extension: &str) -> (r: Option<Vec<u8>>)
    ensures
        match r {
            Some(m) => mime_of(extension@) == Some(m@),
            None => mime_of(extension@) is None,
        },
        extension@.len() == 0 ==> r is None,
{
    mime_db::lookup(extension).map(|m| m.as_bytes().to_vec())
}

/// Relies on `http_types::mime::PLAIN`: the media type of plain UTF-8 text.
#[verifier::external_body]
fn plain_text_mime() -> (r: Vec<u8>) {
    http_types::mime::PLAIN.to_string().into_bytes()
}

/// A body holding rendered text, typed by the template's file extension
/// where one is given and registered, and as plain text otherwise.
pub fn rendered_body(text: &str, extension: Option<&str>) -> (r: Body)
    ensures
        r matches Body::Fixed { bytes, .. } && bytes@ == text.spec_bytes(),
        match extension {
            Some(e) => mime_of(e@) matches Some(m) ==> r.spec_mime() == m,
            None => true,
        },
{
    let bytes = slice_to_vec(text.as_bytes());
    let mime = match extension {
        Some(e) => match lookup_mime(e) {
            Some(m) => m,
            None => plain_text_mime(),
        },
        None => plain_text_mime(),
    };
    Body::Fixed { bytes, mime }
}

/// CR LF.
pub open spec fn crlf() -> Seq<u8> {
    seq![13u8, 10u8]
}

/// One frame of a chunked body: the length in hexadecimal, CRLF, the data,
/// CRLF. Empty data makes no frame, since an empty frame would end the body.
pub open spec fn chunk_frame(data: Seq<u8>) -> Seq<u8> {
    if data.len() == 0 {
        Seq::empty()
    } else {
        hex(data.len()) + crlf() + data + crlf()
    }
}

/// The frame that ends a chunked body: `0`, CRLF, and the empty trailer line.
pub open spec fn last_chunk() -> Seq<u8> {
    seq![48u8, 13u8, 10u8, 13u8, 10u8]
}

/// The frames of a sequence of chunks, without the closing frame.
pub open spec fn chunk_frames(chunks: Seq<Seq<u8>>) -> Seq<u8>
    decreases chunks.len(),
{
    if chunks.len() == 0 {
        Seq::empty()
    } else {
        chunk_frames(chunks.drop_last()) + chunk_frame(chunks.last())
    }
}

/// A whole chunked body made of the given chunks.
pub open spec fn chunked(chunks: Seq<Seq<u8>>) -> Seq<u8> {
    chunk_frames(chunks) + last_chunk()
}

/// Frames one chunk read from a streaming body.
pub fn encode_chunk(data: &[u8]) -> (r: Vec<u8>)
    ensures
        r@ == chunk_frame(data@),
{
    let mut out: Vec<u8> = Vec::new();
    if data.len() == 0 {
        assert(out@ =~= chunk_frame(data@));
        return out;
    }
    push_hex(&mut out, data.len());
    out.push(13u8);
    out.push(10u8);
    out.extend_from_slice(data);
    out.push(13u8);
    out.push(10u8);
    assert(out@ =~= chunk_frame(data@));
    out
}

/// The frame that ends a streaming body.
pub fn encode_last_chunk() -> (r: Vec<u8>)
    ensures
        r@ == last_chunk(),
{
    let r: Vec<u8> = vec![48u8, 13u8, 10u8, 13u8, 10u8];
    assert(r@ =~= last_chunk());
    r
}

/// Frames a whole streaming body from its chunks, in order.
pub fn encode_chunked(chunks: &Vec<Vec<u8>>) -> (r: Vec<u8>)
    ensures
        r@ == chunked(chunks@.map_values(|c: Vec<u8>| c@)),
{
    let ghost cs = chunks@.map_values(|c: Vec<u8>| c@);
    let mut out: Vec<u8> = Vec::new();
    let mut i: usize = 0;
    while i < chunks.len()
        invariant
            i <= chunks.len(),
            cs == chunks@.map_values(|c: Vec<u8>| c@),
            out@ == chunk_frames(cs.subrange(0, i as int)),
        decreases chunks.len() - i,
    {
        let frame = encode_chunk(chunks[i].as_slice());
        let ghost before = out@;
        let mut f = frame;
        out.append(&mut f);
        proof {
            assert(cs.subrange(0, i + 1).drop_last() =~= cs.subrange(0, i as int));
            assert(cs[i as int] == chunks@[i as int]@);
        }
        i += 1;
    }
    assert(cs.subrange(0, i as int) =~= cs);
    let mut end = encode_last_chunk();
    out.append(&mut end);
    out
}

} // verus!
