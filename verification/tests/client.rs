use simple_client::{
    Connection, Endpoint, Exchange, HttpResponseError, HttpStream, IoFailure, ParseFailure, Poll,
    SimpleClient, UrlParts,
};

fn served(stream: &[u8]) -> Connection {
    let mut connection = Connection::new();
    connection.deliver(stream);
    connection.close();
    connection
}

#[test]
fn simple_get_http() {
    let client = SimpleClient::new();
    let first = served(b"HTTP/1.1 200 OK\nContent-Length: 12\n\nHello World!");
    let response = client.get("http://127.0.0.1/", first).unwrap();
    let body_text = response.body.text;
    assert_eq!("Hello World!", body_text);

    let second = served(b"HTTP/1.1 200 OK\nContent-Length: 12\n\nHello World?");
    let response = client.get("http://127.0.0.1:81/", second).unwrap();
    let body_text = response.body.text;
    assert_eq!("Hello World?", body_text);
}

#[test]
fn get_reads_body_of_declared_length() {
    let client = SimpleClient::new();
    let stream = b"HTTP/1.1 200 OK\r\nContent-Length: 12\r\n\r\nHello World!";
    let response = client.get("http://127.0.0.1:8080/", served(stream)).unwrap();
    assert_eq!(response.body.text, "Hello World!");
}

#[test]
fn get_fails_when_body_is_cut_short() {
    let client = SimpleClient::new();
    let stream = b"HTTP/1.1 200 OK\nContent-Length: 40\n\nHello";
    let error = client.get("http://127.0.0.1/", served(stream)).unwrap_err();
    assert_eq!(error, HttpResponseError::Io(IoFailure::Malformed(ParseFailure::IncompleteBody)));
}

#[test]
fn get_refuses_ftp_scheme() {
    let client = SimpleClient::new();
    let error = client.get("ftp://example.com/", served(b"")).unwrap_err();
    assert_eq!(error, HttpResponseError::NotHttpScheme);
    assert_eq!(client.endpoint("ftp://example.com/"), Err(HttpResponseError::NotHttpScheme));
}

#[test]
fn get_reports_unparsable_url() {
    let client = SimpleClient::new();
    let error = client.get("not a url", served(b"")).unwrap_err();
    assert_eq!(error, HttpResponseError::ParseURL("relative URL without a base".to_string()));
    let error = client.endpoint("http://").unwrap_err();
    assert_eq!(error, HttpResponseError::ParseURL("empty host".to_string()));
}

#[test]
fn endpoint_has_host_and_port() {
    let client = SimpleClient::new();
    assert_eq!(
        client.endpoint("http://127.0.0.1/"),
        Ok(Endpoint { host: "127.0.0.1".to_string(), port: 80 })
    );
    assert_eq!(
        client.endpoint("http://Example.COM:81/index.html"),
        Ok(Endpoint { host: "example.com".to_string(), port: 81 })
    );
    assert_eq!(
        client.endpoint("HTTP://localhost:8080"),
        Ok(Endpoint { host: "localhost".to_string(), port: 8080 })
    );
}

#[test]
fn route_decides_by_scheme_host_and_port() {
    let parts = |scheme: &str, host: Option<&str>, port: Option<u16>| UrlParts {
        scheme: scheme.to_string(),
        host: host.map(String::from),
        port,
    };
    assert_eq!(
        SimpleClient::route(Ok(parts("http", Some("h"), Some(1)))),
        Ok(Endpoint { host: "h".to_string(), port: 1 })
    );
    assert_eq!(
        SimpleClient::route(Ok(parts("https", Some("h"), Some(443)))),
        Err(HttpResponseError::NotHttpScheme)
    );
    assert_eq!(
        SimpleClient::route(Ok(parts("http", None, Some(80)))),
        Err(HttpResponseError::Io(IoFailure::Connection("URL has no host".to_string())))
    );
    assert_eq!(
        SimpleClient::route(Ok(parts("http", Some("h"), None))),
        Err(HttpResponseError::Io(IoFailure::Connection("URL has no port number".to_string())))
    );
    assert_eq!(
        SimpleClient::route(Err("empty host".to_string())),
        Err(HttpResponseError::ParseURL("empty host".to_string()))
    );
}

#[test]
fn begin_writes_the_request() {
    let client = SimpleClient::new();
    let mut exchange = client.begin(Connection::new()).unwrap();
    let written = exchange.take_outgoing();
    assert_eq!(
        written,
        b"GET / HTTP/2.0\nHost: localhost\nConnection: keep-alive\n\n".to_vec()
    );
    assert!(exchange.take_outgoing().is_empty());
}

#[test]
fn begin_fails_on_broken_connection() {
    let client = SimpleClient::new();
    let mut connection = Connection::new();
    connection.fail("connection refused".to_string());
    let error = client.begin(connection).err().unwrap();
    assert_eq!(error, HttpResponseError::Io(IoFailure::Connection("connection refused".to_string())));
}

#[test]
fn get_does_not_wait_on_open_connection() {
    let client = SimpleClient::new();
    let mut connection = Connection::new();
    connection.deliver(b"HTTP/1.1 200 OK\nContent-Length: 12\n\nHello");
    let error = client.get("http://127.0.0.1/", connection).unwrap_err();
    assert_eq!(error, HttpResponseError::Io(IoFailure::WouldBlock));
}

#[test]
fn zero_length_gives_empty_body() {
    let client = SimpleClient::new();
    let response = client.parse_captured(b"HTTP/1.1 204 No Content\nContent-Length: 0\n\n").unwrap();
    assert_eq!(response.body.text, "");
    // Complete at the blank line: what follows is not read, and an open
    // connection is not waited for.
    let mut connection = Connection::new();
    connection.deliver(b"HTTP/1.1 200 OK\nContent-Length: 0\n\nnot a header");
    let response = client.get("http://127.0.0.1/", connection).unwrap();
    assert_eq!(response.body.text, "");
}

#[test]
fn header_without_colon_is_rejected() {
    let client = SimpleClient::new();
    let error = client.parse_captured(b"HTTP/1.1 200 OK\nno colon here\n\nbody").unwrap_err();
    assert_eq!(error, HttpResponseError::Io(IoFailure::Malformed(ParseFailure::MalformedHeader)));
}

#[test]
fn content_length_must_be_an_integer() {
    let client = SimpleClient::new();
    let error = client.parse_captured(b"HTTP/1.1 200 OK\nContent-Length: twelve\n\n").unwrap_err();
    assert_eq!(
        error,
        HttpResponseError::Io(IoFailure::Malformed(ParseFailure::InvalidContentLength))
    );
}

#[test]
fn headers_without_content_length_are_rejected() {
    let client = SimpleClient::new();
    let error = client.parse_captured(b"HTTP/1.1 200 OK\nServer: test\n\nbody").unwrap_err();
    assert_eq!(
        error,
        HttpResponseError::Io(IoFailure::Malformed(ParseFailure::MissingContentLength))
    );
}

#[test]
fn stream_that_ends_in_headers_is_incomplete() {
    let client = SimpleClient::new();
    let error = client.parse_captured(b"HTTP/1.1 200 OK\nContent-Length: 3\n").unwrap_err();
    assert_eq!(error, HttpResponseError::Io(IoFailure::Malformed(ParseFailure::IncompleteBody)));
    let error = client.parse_captured(b"").unwrap_err();
    assert_eq!(error, HttpResponseError::Io(IoFailure::Malformed(ParseFailure::IncompleteBody)));
}

#[test]
fn line_that_is_not_utf8_is_rejected() {
    let client = SimpleClient::new();
    let error = client.parse_captured(b"HTTP/1.1 200 OK\nContent-Length: 2\n\n\xff\xfe").unwrap_err();
    assert_eq!(error, HttpResponseError::Io(IoFailure::Malformed(ParseFailure::InvalidUtf8)));
}

#[test]
fn body_of_several_lines_keeps_inner_newlines() {
    let client = SimpleClient::new();
    let response = client.parse_captured(b"HTTP/1.1 200 OK\nContent-Length: 5\n\nab\ncd").unwrap();
    assert_eq!(response.body.text, "ab\ncd");
    // A body that ends in a newline loses it: the length is counted in
    // lines, each with its newline.
    let response = client.parse_captured(b"HTTP/1.1 200 OK\nContent-Length: 6\n\nab\ncd\n").unwrap();
    assert_eq!(response.body.text, "ab\ncd");
}

#[test]
fn carriage_returns_stay_in_the_body() {
    let client = SimpleClient::new();
    // Lines end at the newline alone: the carriage return before it is part
    // of the line, is counted, and comes back with the body.
    let stream = b"HTTP/1.1 200 OK\r\nContent-Length: 14\r\n\r\nfirst\r\nsecond\r";
    let response = client.parse_captured(stream).unwrap();
    assert_eq!(response.body.text, "first\r\nsecond\r");
    let stream = b"HTTP/1.1 200 OK\r\nContent-Length: 13\r\n\r\nfirst\r\nsecond";
    let response = client.parse_captured(stream).unwrap();
    assert_eq!(response.body.text, "first\r\nsecond");
}

#[test]
fn negative_length_is_rejected() {
    let client = SimpleClient::new();
    let error = client.parse_captured(b"HTTP/1.1 200 OK\nContent-Length: -1\n\nbody").unwrap_err();
    assert_eq!(
        error,
        HttpResponseError::Io(IoFailure::Malformed(ParseFailure::NegativeContentLength))
    );
}

#[test]
fn exchange_over_a_stream_without_room_ends_at_once() {
    let mut connection = Connection::new();
    connection.deliver(b"HTTP/1.1 200 OK\nContent-Length: 2\n\nab");
    let mut exchange = Exchange::new(HttpStream::with_capacity(0, connection));
    match exchange.poll() {
        Poll::Ready(Err(error)) => assert_eq!(
            error,
            HttpResponseError::Io(IoFailure::Malformed(ParseFailure::IncompleteBody))
        ),
        other => panic!("{:?}", other),
    }
}

#[test]
fn body_with_multibyte_text_is_counted_in_bytes() {
    let client = SimpleClient::new();
    let response = client
        .parse_captured("HTTP/1.1 200 OK\nContent-Length: 7\n\nh\u{e9}llo!".as_bytes())
        .unwrap();
    assert_eq!(response.body.text, "h\u{e9}llo!");
}

#[test]
fn reparsing_gives_the_same_response() {
    let client = SimpleClient::new();
    let captured = b"HTTP/1.1 200 OK\nContent-Length: 12\n\nHello World!";
    let first = client.parse_captured(captured);
    let second = client.parse_captured(captured);
    assert_eq!(first, second);
    assert_eq!(first.unwrap().body.text, "Hello World!");
}

fn exchange_in_chunks(stream: &[u8], chunk: usize, capacity: usize) -> Poll {
    let mut exchange = Exchange::new(HttpStream::with_capacity(capacity, Connection::new()));
    for piece in stream.chunks(chunk) {
        match exchange.poll() {
            Poll::Pending => {},
            ready => return ready,
        }
        exchange.deliver(piece);
    }
    match exchange.poll() {
        Poll::Pending => {},
        ready => return ready,
    }
    exchange.close();
    exchange.poll()
}

#[test]
fn chunking_does_not_change_the_body() {
    let stream = "HTTP/1.1 200 OK\r\nServer: t\u{e9}st\r\nContent-Length: 21\r\n\r\nHello\nW\u{f6}rld!\nthe end"
        .as_bytes();
    for chunk in [1usize, 2, 3, 5, 7, 16, 64, 1000] {
        for capacity in [1usize, 2, 4, 8, 8192] {
            match exchange_in_chunks(stream, chunk, capacity) {
                Poll::Ready(Ok(response)) => {
                    assert_eq!(response.body.text, "Hello\nW\u{f6}rld!\nthe end")
                },
                other => panic!("chunk {} capacity {}: {:?}", chunk, capacity, other),
            }
        }
    }
}

#[test]
fn chunking_does_not_change_a_failure() {
    let stream = b"HTTP/1.1 200 OK\nContent-Length: 30\n\nshort";
    for chunk in [1usize, 4, 100] {
        match exchange_in_chunks(stream, chunk, 3) {
            Poll::Ready(Err(error)) => assert_eq!(
                error,
                HttpResponseError::Io(IoFailure::Malformed(ParseFailure::IncompleteBody))
            ),
            other => panic!("chunk {}: {:?}", chunk, other),
        }
    }
}

#[test]
fn exchange_waits_then_completes() {
    let mut exchange = SimpleClient::new().begin(Connection::new()).unwrap();
    assert!(matches!(exchange.poll(), Poll::Pending));
    exchange.deliver(b"HTTP/1.1 200 OK\nContent-Le");
    assert!(matches!(exchange.poll(), Poll::Pending));
    exchange.deliver(b"ngth: 3\n\nab");
    assert!(matches!(exchange.poll(), Poll::Pending));
    exchange.deliver(b"c\n");
    match exchange.poll() {
        Poll::Ready(Ok(response)) => assert_eq!(response.body.text, "abc"),
        other => panic!("{:?}", other),
    }
    // Done is done: what arrives later changes nothing.
    exchange.deliver(b"more\n");
    match exchange.poll() {
        Poll::Ready(Ok(response)) => assert_eq!(response.body.text, "abc"),
        other => panic!("{:?}", other),
    }
}

#[test]
fn exchange_reports_broken_connection() {
    let mut exchange = SimpleClient::new().begin(Connection::new()).unwrap();
    exchange.deliver(b"HTTP/1.1 200 OK\nContent-Length: 9\n\nab");
    exchange.fail("connection reset".to_string());
    match exchange.poll() {
        Poll::Ready(Err(error)) => assert_eq!(
            error,
            HttpResponseError::Io(IoFailure::Connection("connection reset".to_string()))
        ),
        other => panic!("{:?}", other),
    }
}
