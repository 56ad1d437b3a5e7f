//! An HTTP/1.1 server-side connection engine: head scanning and parsing,
//! request-body framing, response encoding and keep-alive/upgrade decisions,
//! all stated and proved with Verus.
use vstd::prelude::*;

pub mod body;
pub mod bytes;
pub mod chunked;
pub mod conn;
pub mod error;
pub mod head;
pub mod headers;
pub mod laws;
pub mod names;
pub mod raw;
pub mod request_body;
pub mod text;

pub use body::Body;
pub use conn::{Conn, ConnectionStatus, Encoded, Finish, Upgrade};
pub use error::Error;
pub use head::{HeadScanner, Scan, MAX_HEAD_LENGTH};
pub use headers::Headers;
pub use raw::{RawHead, MAX_HEADERS};
pub use request_body::RequestBodyState;
pub use text::utf8;

verus! {

} // verus!
