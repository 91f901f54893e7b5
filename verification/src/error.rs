//! The failures that can end an exchange.

use vstd::prelude::*;
use vstd::string::*;

verus! {

/// A response stream that the state machine cannot accept.
#[derive(Clone, Copy, Debug, PartialEq, Eq, Structural)]
pub enum ParseFailure {
    /// A line is not valid UTF-8.
    InvalidUtf8,
    /// A header line has no colon.
    MalformedHeader,
    /// The value of `Content-Length` is not an integer.
    InvalidContentLength,
    /// The headers ended with a negative `Content-Length` declared.
    NegativeContentLength,
    /// The headers ended and none of them was `Content-Length`.
    MissingContentLength,
    /// The stream ended before the response was complete.
    IncompleteBody,
}

impl ParseFailure {
    /// A short text for each failure.
    pub open spec fn describe(self) -> Seq<char> {
        match self {
            ParseFailure::InvalidUtf8 => "stream did not contain valid UTF-8"@,
            ParseFailure::MalformedHeader => "header line without a colon"@,
            ParseFailure::InvalidContentLength => "Content-Length is not an integer"@,
            ParseFailure::NegativeContentLength => "Content-Length is negative"@,
            ParseFailure::MissingContentLength => "no Content-Length header"@,
            ParseFailure::IncompleteBody => "stream ended before the body was complete"@,
        }
    }

    /// The text of `describe`, as a string.
    pub fn description(&self) -> (r: String)
        ensures
            r@ == self.describe(),
    {
        match self {
            ParseFailure::InvalidUtf8 => String::from_str("stream did not contain valid UTF-8"),
            ParseFailure::MalformedHeader => String::from_str("header line without a colon"),
            ParseFailure::InvalidContentLength => String::from_str(
                "Content-Length is not an integer",
            ),
            ParseFailure::NegativeContentLength => String::from_str("Content-Length is negative"),
            ParseFailure::MissingContentLength => String::from_str("no Content-Length header"),
            ParseFailure::IncompleteBody => String::from_str(
                "stream ended before the body was complete",
            ),
        }
    }
}

/// A failure of the connection, or of the stream that it carried.
#[derive(Clone, Debug, PartialEq, Eq)]
pub enum IoFailure {
    /// The connection reported an error; the text says which.
    Connection(String),
    /// The connection is open and has nothing to read right now.
    WouldBlock,
    /// The stream does not hold a well-formed response.
    Malformed(ParseFailure),
}

/// The mathematical value of an `IoFailure`.
pub enum IoFailureView {
    Connection(Seq<char>),
    WouldBlock,
    Malformed(ParseFailure),
}

impl IoFailureView {
    /// A short text for each failure.
    pub open spec fn describe(self) -> Seq<char> {
        match self {
            IoFailureView::Connection(details) => details,
            IoFailureView::WouldBlock => "operation would block"@,
            IoFailureView::Malformed(failure) => failure.describe(),
        }
    }
}

impl View for IoFailure {
    type V = IoFailureView;

    open spec fn view(&self) -> IoFailureView {
        match self {
            IoFailure::Connection(details) => IoFailureView::Connection(details@),
            IoFailure::WouldBlock => IoFailureView::WouldBlock,
            IoFailure::Malformed(failure) => IoFailureView::Malformed(*failure),
        }
    }
}

impl IoFailure {
    /// The text of the failure.
    pub fn description(&self) -> (r: String)
        ensures
            r@ == self@.describe(),
    {
        match self {
            IoFailure::Connection(details) => details.clone(),
            IoFailure::WouldBlock => String::from_str("operation would block"),
            IoFailure::Malformed(failure) => failure.description(),
        }
    }
}

/// Why a request produced no response.
#[derive(Clone, Debug, PartialEq, Eq)]
pub enum HttpResponseError {
    /// The URL's scheme is not `http`.
    NotHttpScheme,
    /// The URL could not be parsed; the text says why.
    ParseURL(String),
    /// The connection failed, or the stream was not a complete response.
    Io(IoFailure),
}

/// The mathematical value of an `HttpResponseError`.
pub enum HttpResponseErrorView {
    NotHttpScheme,
    ParseURL(Seq<char>),
    Io(IoFailureView),
}

impl HttpResponseErrorView {
    /// A short text for each error.
    pub open spec fn describe(self) -> Seq<char> {
        match self {
            HttpResponseErrorView::NotHttpScheme => "This hasn't http scheme"@,
            HttpResponseErrorView::ParseURL(details) => details,
            HttpResponseErrorView::Io(failure) => failure.describe(),
        }
    }

    /// The line that reports the error to a reader.
    pub open spec fn text(self) -> Seq<char> {
        match self {
            HttpResponseErrorView::NotHttpScheme =>
                "Not HTTP Scheme: input string hasn't http scheme"@,
            HttpResponseErrorView::ParseURL(details) => "Parse URL Error: "@ + details,
            HttpResponseErrorView::Io(failure) => "IO Error: "@ + failure.describe(),
        }
    }
}

impl View for HttpResponseError {
    type V = HttpResponseErrorView;

    open spec fn view(&self) -> HttpResponseErrorView {
        match self {
            HttpResponseError::NotHttpScheme => HttpResponseErrorView::NotHttpScheme,
            HttpResponseError::ParseURL(details) => HttpResponseErrorView::ParseURL(details@),
            HttpResponseError::Io(failure) => HttpResponseErrorView::Io(failure@),
        }
    }
}

impl HttpResponseError {
    /// The text of the error.
    pub fn description(&self) -> (r: String)
        ensures
            r@ == self@.describe(),
    {
        match self {
            HttpResponseError::NotHttpScheme => String::from_str("This hasn't http scheme"),
            HttpResponseError::ParseURL(details) => details.clone(),
            HttpResponseError::Io(failure) => failure.description(),
        }
    }

    /// The line that reports the error to a reader: the kind of error, then
    /// its text.
    pub fn to_text(&self) -> (r: String)
        ensures
            r@ == self@.text(),
    {
        match self {
            HttpResponseError::NotHttpScheme => String::from_str(
                "Not HTTP Scheme: input string hasn't http scheme",
            ),
            HttpResponseError::ParseURL(details) => String::from_str("Parse URL Error: ").concat(
                details.as_str(),
            ),
            HttpResponseError::Io(failure) => {
                let details = failure.description();
                String::from_str("IO Error: ").concat(details.as_str())
            },
        }
    }
}

impl From<IoFailure> for HttpResponseError {
    fn from(failure: IoFailure) -> (r: HttpResponseError) {
        HttpResponseError::Io(failure)
    }
}

impl vstd::std_specs::convert::FromSpecImpl<IoFailure> for HttpResponseError {
    open spec fn obeys_from_spec() -> bool {
        true
    }

    open spec fn from_spec(failure: IoFailure) -> HttpResponseError {
        HttpResponseError::Io(failure)
    }
}

impl From<ParseFailure> for IoFailure {
    fn from(failure: ParseFailure) -> (r: IoFailure) {
        IoFailure::Malformed(failure)
    }
}

impl vstd::std_specs::convert::FromSpecImpl<ParseFailure> for IoFailure {
    open spec fn obeys_from_spec() -> bool {
        true
    }

    open spec fn from_spec(failure: ParseFailure) -> IoFailure {
        IoFailure::Malformed(failure)
    }
}

} // verus!
