//! The error type of the library.

use vstd::prelude::*;
use crate::text::{chars_of, push_str, string_of};

verus! {

/// Why discovery or a download step failed.
#[derive(Debug, Clone, PartialEq, Eq)]
pub enum Error {
    /// A URL, page or option could not be used; the text says why.
    InvalidUrl(String),
    /// The output path is unusable.
    InvalidOutput(String),
    /// The page yielded no stream.
    NoStreamsFound,
    /// An HTTP request failed; the text is the transport's message.
    Http(String),
    /// A file-system operation failed; the text is the system's message.
    Io(String),
    /// Muxing or an HLS download with ffmpeg failed.
    Merge(String),
}

impl Error {
    /// The message shown for the error.
    pub fn message(&self) -> (r: String)
        ensures
            r@ == match self {
                Error::InvalidUrl(m) => "invalid URL: "@ + m@,
                Error::InvalidOutput(m) => "invalid output path: "@ + m@,
                Error::NoStreamsFound => "no streams found on page"@,
                Error::Http(m) => "HTTP error: "@ + m@,
                Error::Io(m) => "I/O error: "@ + m@,
                Error::Merge(m) => "merge error: "@ + m@,
            },
    {
        let (head, detail): (&str, Option<&String>) = match self {
            Error::InvalidUrl(m) => ("invalid URL: ", Some(m)),
            Error::InvalidOutput(m) => ("invalid output path: ", Some(m)),
            Error::NoStreamsFound => ("no streams found on page", None),
            Error::Http(m) => ("HTTP error: ", Some(m)),
            Error::Io(m) => ("I/O error: ", Some(m)),
            Error::Merge(m) => ("merge error: ", Some(m)),
        };
        let mut v = chars_of(head);
        if let Some(m) = detail {
            push_str(&mut v, m.as_str());
        }
        string_of(v.as_slice())
    }
}

} // verus!
