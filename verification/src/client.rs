//! The client: it reads the endpoint out of a URL, writes the request and
//! runs the exchange.

use crate::connection::{Connection, Status};
use crate::error::{HttpResponseError, HttpResponseErrorView, IoFailure, IoFailureView};
use crate::exchange::{settle, Exchange, ExchangeView, Poll};
use crate::lines::LinesView;
use crate::parser::Machine;
use crate::response::HttpResponse;
use crate::stream::{HttpStream, DEFAULT_HTTP_BUF_SIZE};
use vstd::prelude::*;
use vstd::string::*;

verus! {

/// What the client reads from a parsed URL.
#[derive(Clone, Debug, PartialEq, Eq)]
pub struct UrlParts {
    /// The scheme, in lower case and without the colon.
    pub scheme: String,
    /// The host as written in the URL, if it has one.
    pub host: Option<String>,
    /// The port: the one in the URL, else the default of its scheme, if
    /// that is known.
    pub port: Option<u16>,
}

impl View for UrlParts {
    type V = (Seq<char>, Option<Seq<char>>, Option<u16>);

    open spec fn view(&self) -> Self::V {
        (
            self.scheme@,
            match self.host {
                Some(host) => Some(host@),
                None => None,
            },
            self.port,
        )
    }
}

/// Where a request goes.
#[derive(Clone, Debug, PartialEq, Eq)]
pub struct Endpoint {
    pub host: String,
    pub port: u16,
}

impl View for Endpoint {
    type V = (Seq<char>, u16);

    open spec fn view(&self) -> Self::V {
        (self.host@, self.port)
    }
}

/// What `url::Url::parse` makes of `input`: the scheme, host and port that the
/// URL has, or the text of the parse error.
pub uninterp spec fn url_parse(input: Seq<char>) -> Result<
    (Seq<char>, Option<Seq<char>>, Option<u16>),
    Seq<char>,
>;

/// Parses `input` with `url::Url::parse`, and reads from the result what
/// `Url::scheme`, `Url::host_str` and `Url::port_or_known_default` return;
/// a parse error is given as its text.
#[verifier::external_body]
fn parse_url(input: &str) -> (r: Result<UrlParts, String>)
    ensures
        match r {
            Ok(parts) => url_parse(input@) == Ok::<
                (Seq<char>, Option<Seq<char>>, Option<u16>),
                Seq<char>,
            >(parts@),
            Err(details) => url_parse(input@) == Err::<
                (Seq<char>, Option<Seq<char>>, Option<u16>),
                Seq<char>,
            >(details@),
        },
{
    match url::Url::parse(input) {
        Ok(parsed) => Ok(
            UrlParts {
                scheme: String::from(parsed.scheme()),
                host: parsed.host_str().map(String::from),
                port: parsed.port_or_known_default(),
            },
        ),
        Err(error) => Err(error.to_string()),
    }
}

/// The endpoint that a parsed URL names: a URL that did not parse is an
/// error with the parser's text, a scheme other than `http` is refused, and
/// a URL without host or port has no address.
pub open spec fn endpoint_of(
    parsed: Result<(Seq<char>, Option<Seq<char>>, Option<u16>), Seq<char>>,
) -> Result<(Seq<char>, u16), HttpResponseErrorView> {
    match parsed {
        Err(details) => Err(HttpResponseErrorView::ParseURL(details)),
        Ok((scheme, host, port)) => if scheme != "http"@ {
            Err(HttpResponseErrorView::NotHttpScheme)
        } else {
            match (host, port) {
                (Some(host), Some(port)) => Ok((host, port)),
                (None, _) => Err(
                    HttpResponseErrorView::Io(IoFailureView::Connection("URL has no host"@)),
                ),
                (_, None) => Err(
                    HttpResponseErrorView::Io(IoFailureView::Connection("URL has no port number"@)),
                ),
            }
        },
    }
}

/// The request that the client writes, as text.
pub open spec fn request_text() -> Seq<char> {
    "GET / HTTP/2.0\nHost: localhost\nConnection: keep-alive\n\n"@
}

/// A line reader that has read nothing of a connection yet, over a buffered
/// reader of the default size.
pub open spec fn fresh_reader(connection: crate::connection::ConnectionView) -> LinesView {
    LinesView {
        partial: Seq::empty(),
        pending: connection.pending,
        status: connection.status,
        failure: connection.failure,
        sent: connection.sent,
        capacity: DEFAULT_HTTP_BUF_SIZE as nat,
    }
}

/// What a whole captured stream holds: the verdict of an exchange that
/// finds `captured` on a closed connection.
pub open spec fn response_of(captured: Seq<u8>) -> Result<Seq<char>, HttpResponseErrorView> {
    answer(
        settle(
            Machine::initial(),
            LinesView {
                partial: Seq::empty(),
                pending: captured,
                status: Status::Closed,
                failure: Seq::empty(),
                sent: Seq::empty(),
                capacity: DEFAULT_HTTP_BUF_SIZE as nat,
            },
        ),
    )
}

/// The answer of a call that cannot wait: the verdict of the exchange,
/// and an error where there is none yet.
pub open spec fn answer(exchange: ExchangeView) -> Result<Seq<char>, HttpResponseErrorView> {
    match exchange.verdict() {
        Some(verdict) => verdict,
        None => Err(HttpResponseErrorView::Io(IoFailureView::WouldBlock)),
    }
}

/// What `get` returns for a URL that parsed as `parsed`, over `connection`:
/// the error of the URL, if it has one; else the error of a connection that
/// is broken before the request can be written; else the answer of the
/// exchange on what the connection holds.
pub open spec fn get_result(
    parsed: Result<(Seq<char>, Option<Seq<char>>, Option<u16>), Seq<char>>,
    connection: crate::connection::ConnectionView,
) -> Result<Seq<char>, HttpResponseErrorView> {
    match endpoint_of(parsed) {
        Err(error) => Err(error),
        Ok(_) => if connection.status == Status::Failed {
            Err(HttpResponseErrorView::Io(IoFailureView::Connection(connection.failure)))
        } else {
            answer(
                settle(
                    Machine::initial(),
                    LinesView {
                        sent: connection.sent + vstd::utf8::encode_utf8(request_text()),
                        ..fresh_reader(connection)
                    },
                ),
            )
        },
    }
}

/// The value of a result of the client.
pub open spec fn result_view(r: Result<HttpResponse, HttpResponseError>) -> Result<
    Seq<char>,
    HttpResponseErrorView,
> {
    match r {
        Ok(response) => Ok(response@),
        Err(error) => Err(error@),
    }
}

/// A client for single exchanges.
pub struct SimpleClient {}

impl SimpleClient {
    /// A client.
    pub fn new() -> Self {
        SimpleClient {  }
    }

    /// The endpoint that a parsed URL names.
    pub fn route(parsed: Result<UrlParts, String>) -> (r: Result<Endpoint, HttpResponseError>)
        ensures
            match r {
                Ok(endpoint) => endpoint_of(
                    match parsed {
                        Ok(parts) => Ok(parts@),
                        Err(details) => Err(details@),
                    },
                ) == Ok::<(Seq<char>, u16), HttpResponseErrorView>(endpoint@),
                Err(error) => endpoint_of(
                    match parsed {
                        Ok(parts) => Ok(parts@),
                        Err(details) => Err(details@),
                    },
                ) == Err::<(Seq<char>, u16), HttpResponseErrorView>(error@),
            },
    {
        match parsed {
            Err(details) => Err(HttpResponseError::ParseURL(details)),
            Ok(parts) => {
                let http = String::from_str("http");
                if !(parts.scheme == http) {
                    return Err(HttpResponseError::NotHttpScheme);
                }
                match (parts.host, parts.port) {
                    (Some(host), Some(port)) => Ok(Endpoint { host, port }),
                    (None, _) => Err(
                        HttpResponseError::Io(
                            IoFailure::Connection(String::from_str("URL has no host")),
                        ),
                    ),
                    (_, None) => Err(
                        HttpResponseError::Io(
                            IoFailure::Connection(String::from_str("URL has no port number")),
                        ),
                    ),
                }
            },
        }
    }

    /// Reads the endpoint of a request out of `url`: parses it, refuses any
    /// scheme but `http`, and returns host and port.
    pub fn endpoint(&self, url: &str) -> (r: Result<Endpoint, HttpResponseError>)
        ensures
            match r {
                Ok(endpoint) => endpoint_of(url_parse(url@)) == Ok::<
                    (Seq<char>, u16),
                    HttpResponseErrorView,
                >(endpoint@),
                Err(error) => endpoint_of(url_parse(url@)) == Err::<
                    (Seq<char>, u16),
                    HttpResponseErrorView,
                >(error@),
            },
    {
        SimpleClient::route(parse_url(url))
    }

    /// Starts an exchange on `connection`: writes the request, all of it,
    /// and sets a buffered reader and the state machine on the connection.
    /// On a broken connection nothing is written and its error returned.
    pub fn begin(&self, connection: Connection) -> (r: Result<Exchange, HttpResponseError>)
        requires
            connection.wf(),
        ensures
            match r {
                Ok(exchange) => {
                    &&& connection@.status != Status::Failed
                    &&& exchange.wf()
                    &&& exchange@ == (ExchangeView {
                        machine: Machine::initial(),
                        reader: LinesView {
                            sent: connection@.sent + vstd::utf8::encode_utf8(request_text()),
                            ..fresh_reader(connection@)
                        },
                    })
                },
                Err(error) => {
                    &&& connection@.status == Status::Failed
                    &&& error@ == HttpResponseErrorView::Io(
                        IoFailureView::Connection(connection@.failure),
                    )
                },
            },
    {
        let mut connection = connection;
        let request = "GET / HTTP/2.0\nHost: localhost\nConnection: keep-alive\n\n";
        match connection.write(request.as_bytes()) {
            Err(failure) => Err(HttpResponseError::Io(failure)),
            Ok(_) => {
                let stream = HttpStream::new(connection);
                proof {
                    assert(stream@.pending() =~= connection@.pending);
                }
                Ok(Exchange::new(stream))
            },
        }
    }

    /// Requests `url` over `connection` and returns the response that the
    /// connection holds. The URL is checked first. Then the request is
    /// written and the response read as far as it has been delivered: where
    /// the connection is still open and the response not complete, the call
    /// does not wait and reports that it would block.
    pub fn get(&self, url: &str, connection: Connection) -> (r: Result<
        HttpResponse,
        HttpResponseError,
    >)
        requires
            connection.wf(),
        ensures
            result_view(r) == get_result(url_parse(url@), connection@),
    {
        match self.endpoint(url) {
            Err(error) => Err(error),
            Ok(_) => match self.begin(connection) {
                Err(error) => Err(error),
                Ok(exchange) => {
                    let mut exchange = exchange;
                    match exchange.poll() {
                        Poll::Ready(result) => result,
                        Poll::Pending => Err(HttpResponseError::Io(IoFailure::WouldBlock)),
                    }
                },
            },
        }
    }

    /// Parses a captured response stream: the bytes that a connection
    /// carried from the first to the last.
    pub fn parse_captured(&self, captured: &[u8]) -> (r: Result<HttpResponse, HttpResponseError>)
        ensures
            result_view(r) == response_of(captured@),
    {
        let mut connection = Connection::new();
        connection.deliver(captured);
        connection.close();
        let stream = HttpStream::new(connection);
        proof {
            assert(stream@.pending() =~= captured@);
        }
        let mut exchange = Exchange::new(stream);
        match exchange.poll() {
            Poll::Ready(result) => result,
            Poll::Pending => Err(HttpResponseError::Io(IoFailure::WouldBlock)),
        }
    }
}

} // verus!
