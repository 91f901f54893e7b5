use simple_client::text::{find, index_of, read_integer, to_chars, trim_bounds, whitespace};
use simple_client::{
    classify_line, lines, Connection, HttpResponse, HttpResponseError, HttpStream, IoFailure,
    LineKind, ParseFailure, ParseState, Phase, Status, DEFAULT_HTTP_BUF_SIZE,
};

fn chars(text: &str) -> Vec<char> {
    text.chars().collect()
}

#[test]
fn to_chars_lists_the_characters() {
    assert_eq!(to_chars("a\u{e9}z"), vec!['a', '\u{e9}', 'z']);
    assert_eq!(to_chars(""), Vec::<char>::new());
}

#[test]
fn whitespace_is_unicode_white_space() {
    for c in [' ', '\t', '\n', '\r', '\u{b}', '\u{c}', '\u{85}', '\u{a0}', '\u{1680}', '\u{2000}',
        '\u{200a}', '\u{2028}', '\u{2029}', '\u{202f}', '\u{205f}', '\u{3000}']
    {
        assert!(whitespace(c), "{:?}", c);
    }
    for c in ['a', '0', ':', '\u{8}', '\u{e}', '\u{200b}', '\u{feff}', '\u{1f}'] {
        assert!(!whitespace(c), "{:?}", c);
    }
    for code in 0u32..0x3100 {
        if let Some(c) = char::from_u32(code) {
            assert_eq!(whitespace(c), c.is_whitespace(), "{:?}", c);
        }
    }
}

#[test]
fn trim_bounds_cuts_both_ends() {
    let text = chars("  \t a b \r\n");
    assert_eq!(trim_bounds(&text, 0, text.len()), (4, 7));
    assert_eq!(trim_bounds(&text, 5, text.len()), (6, 7));
    let blank = chars(" \r ");
    let (lo, hi) = trim_bounds(&blank, 0, blank.len());
    assert_eq!(lo, hi);
    assert_eq!(trim_bounds(&text, 4, 4), (4, 4));
}

#[test]
fn find_and_index_of_search_from_the_left() {
    assert!(find(&chars("xxHTTP/1.1"), &chars("HTTP")));
    assert!(find(&chars("HTTP"), &chars("HTTP")));
    assert!(!find(&chars("HTT"), &chars("HTTP")));
    assert!(!find(&chars("http"), &chars("HTTP")));
    assert!(find(&chars(""), &chars("")));
    assert_eq!(index_of(&chars("a:b:c"), ':'), Some(1));
    assert_eq!(index_of(&chars("abc"), ':'), None);
}

#[test]
fn read_integer_reads_signed_decimals() {
    let read = |text: &str| {
        let text = chars(text);
        read_integer(&text, 0, text.len())
    };
    assert_eq!(read("12"), Some(12));
    assert_eq!(read("+12"), Some(12));
    assert_eq!(read("-12"), Some(-12));
    assert_eq!(read("0007"), Some(7));
    assert_eq!(read("9223372036854775807"), Some(i64::MAX));
    assert_eq!(read("-9223372036854775808"), Some(i64::MIN));
    assert_eq!(read("9223372036854775808"), None);
    assert_eq!(read("-9223372036854775809"), None);
    assert_eq!(read("99999999999999999999999"), None);
    assert_eq!(read(""), None);
    assert_eq!(read("-"), None);
    assert_eq!(read("+"), None);
    assert_eq!(read("1 2"), None);
    assert_eq!(read("12a"), None);
    assert_eq!(read("--1"), None);
    assert_eq!(read("\u{663}"), None);
    let text = chars("ab123cd");
    assert_eq!(read_integer(&text, 2, 5), Some(123));
    for text in ["12", "+5", "-0", "x", "", "00", "9223372036854775808", "-9223372036854775808"] {
        assert_eq!(read(text), text.parse::<i64>().ok(), "{:?}", text);
    }
}

#[test]
fn classify_line_tells_the_kinds_apart() {
    assert_eq!(classify_line("HTTP/1.1 200 OK"), LineKind::Status);
    assert_eq!(classify_line("Server: HTTPd"), LineKind::Status);
    assert_eq!(classify_line(""), LineKind::Blank);
    assert_eq!(classify_line(" \r"), LineKind::Blank);
    assert_eq!(classify_line("Content-Length: 12"), LineKind::ContentLength(12));
    assert_eq!(classify_line("  Content-Length :\t-3\r"), LineKind::ContentLength(-3));
    assert_eq!(classify_line("Content-Length-Extra: 4"), LineKind::ContentLength(4));
    assert_eq!(classify_line("content-length: 12"), LineKind::OtherHeader);
    assert_eq!(classify_line("X-Content-Length: 12"), LineKind::OtherHeader);
    assert_eq!(classify_line("Content-Length: 1:2"), LineKind::BadLength);
    assert_eq!(classify_line("Content-Length:"), LineKind::BadLength);
    assert_eq!(classify_line("Host: localhost:80"), LineKind::OtherHeader);
    assert_eq!(classify_line("no colon"), LineKind::MissingColon);
}

#[test]
fn machine_follows_headers_to_body() {
    let mut state = ParseState::new();
    assert_eq!(state.phase(), Phase::HeaderPhase);
    assert_eq!(state.remaining_body_bytes(), None);
    assert_eq!(state.outcome(), None);
    assert_eq!(state.step("HTTP/1.1 200 OK"), Phase::HeaderPhase);
    assert_eq!(state.step("Content-Length: 10"), Phase::HeaderPhase);
    assert_eq!(state.remaining_body_bytes(), Some(10));
    assert_eq!(state.step(""), Phase::BodyPhase);
    assert_eq!(state.step("abc"), Phase::BodyPhase);
    assert_eq!(state.remaining_body_bytes(), Some(6));
    assert!(!state.is_terminal());
    assert_eq!(state.step("HTTP"), Phase::BodyPhase);
    assert_eq!(state.remaining_body_bytes(), Some(1));
    assert_eq!(state.step(""), Phase::Complete);
    assert!(state.is_terminal());
    assert_eq!(state.remaining_body_bytes(), None);
    assert_eq!(state.outcome(), Some(Ok("abc\nHTTP\n".to_string())));
    assert_eq!(state.step("ignored"), Phase::Complete);
    assert_eq!(state.finish(), Phase::Complete);
    assert_eq!(state.outcome(), Some(Ok("abc\nHTTP\n".to_string())));
}

#[test]
fn machine_takes_the_last_content_length() {
    let mut state = ParseState::new();
    state.step("Content-Length: 100");
    state.step("Content-Length: 2");
    assert_eq!(state.step("\r"), Phase::BodyPhase);
    assert_eq!(state.step("ab"), Phase::Complete);
    assert_eq!(state.outcome(), Some(Ok("ab".to_string())));
}

#[test]
fn machine_completes_at_once_without_body() {
    let mut state = ParseState::new();
    state.step("Content-Length: 0");
    assert_eq!(state.step(""), Phase::Complete);
    assert_eq!(state.outcome(), Some(Ok(String::new())));
}

#[test]
fn machine_rejects_a_negative_length() {
    let mut state = ParseState::new();
    assert_eq!(state.step("Content-Length: -4"), Phase::HeaderPhase);
    assert_eq!(state.remaining_body_bytes(), Some(-4));
    assert_eq!(state.step(""), Phase::Failed);
    assert_eq!(state.outcome(), Some(Err(ParseFailure::NegativeContentLength)));
    // A later header counts: the last length declared decides.
    let mut state = ParseState::new();
    state.step("Content-Length: -4");
    state.step("Content-Length: 1");
    assert_eq!(state.step(""), Phase::BodyPhase);
}

#[test]
fn machine_names_its_failures() {
    let mut state = ParseState::new();
    assert_eq!(state.step("no colon"), Phase::Failed);
    assert_eq!(state.outcome(), Some(Err(ParseFailure::MalformedHeader)));
    assert_eq!(state.step("Content-Length: 1"), Phase::Failed);
    assert_eq!(state.finish(), Phase::Failed);
    assert_eq!(state.outcome(), Some(Err(ParseFailure::MalformedHeader)));

    let mut state = ParseState::new();
    assert_eq!(state.step("Content-Length: 1x"), Phase::Failed);
    assert_eq!(state.outcome(), Some(Err(ParseFailure::InvalidContentLength)));

    let mut state = ParseState::new();
    assert_eq!(state.step(""), Phase::Failed);
    assert_eq!(state.outcome(), Some(Err(ParseFailure::MissingContentLength)));

    let mut state = ParseState::new();
    state.step("Content-Length: 5");
    assert_eq!(state.finish(), Phase::Failed);
    assert_eq!(state.outcome(), Some(Err(ParseFailure::IncompleteBody)));

    let mut state = ParseState::new();
    assert_eq!(state.reject(ParseFailure::InvalidUtf8), Phase::Failed);
    assert_eq!(state.outcome(), Some(Err(ParseFailure::InvalidUtf8)));
}

#[test]
fn connection_hands_bytes_over_in_order() {
    let mut connection = Connection::new();
    assert_eq!(connection.status(), Status::Open);
    let mut buffer = [0u8; 4];
    assert_eq!(connection.read(&mut buffer), Err(IoFailure::WouldBlock));
    connection.deliver(b"abcdef");
    connection.deliver(b"gh");
    assert_eq!(connection.pending_len(), 8);
    assert_eq!(connection.read(&mut buffer), Ok(4));
    assert_eq!(&buffer, b"abcd");
    assert_eq!(connection.read(&mut buffer[..0]), Ok(0));
    assert_eq!(connection.read(&mut buffer[..3]), Ok(3));
    assert_eq!(&buffer, b"efgd");
    connection.close();
    assert_eq!(connection.status(), Status::Closed);
    connection.deliver(b"late");
    assert_eq!(connection.read(&mut buffer), Ok(1));
    assert_eq!(&buffer, b"hfgd");
    assert_eq!(connection.read(&mut buffer), Ok(0));
    assert_eq!(connection.pending_len(), 0);
    connection.fail("ignored".to_string());
    assert_eq!(connection.status(), Status::Closed);
}

#[test]
fn connection_reports_its_error_after_the_data() {
    let mut connection = Connection::new();
    connection.deliver(b"ab");
    connection.fail("reset by peer".to_string());
    assert_eq!(connection.status(), Status::Failed);
    let mut buffer = [0u8; 8];
    assert_eq!(connection.read(&mut buffer), Ok(2));
    assert_eq!(connection.read(&mut buffer), Err(IoFailure::Connection("reset by peer".to_string())));
    assert_eq!(connection.write(b"x"), Err(IoFailure::Connection("reset by peer".to_string())));
    assert!(connection.take_outgoing().is_empty());
}

#[test]
fn connection_collects_what_was_written() {
    let mut connection = Connection::new();
    assert_eq!(connection.write(b"GET "), Ok(4));
    assert_eq!(connection.write(b"/"), Ok(1));
    assert_eq!(connection.take_outgoing(), b"GET /".to_vec());
    assert_eq!(connection.take_outgoing(), Vec::<u8>::new());
}

fn loaded(bytes: &[u8]) -> Connection {
    let mut connection = Connection::new();
    connection.deliver(bytes);
    connection
}

#[test]
fn new_stream_has_default_capacity() {
    let stream = HttpStream::new(Connection::new());
    assert_eq!(stream.capacity(), 8 * 1024);
    assert_eq!(DEFAULT_HTTP_BUF_SIZE, 8192);
    assert!(stream.buffer().is_empty());
}

#[test]
fn fill_buf_fetches_only_when_drained() {
    let mut stream = HttpStream::with_capacity(4, loaded(b"abcdefghij"));
    assert!(stream.buffer().is_empty());
    assert_eq!((stream.read_cursor(), stream.filled_len()), (0, 0));
    assert_eq!(stream.fill_buf(), Ok(&b"abcd"[..]));
    assert_eq!((stream.read_cursor(), stream.filled_len()), (0, 4));
    assert_eq!(stream.fill_buf(), Ok(&b"abcd"[..]));
    stream.consume(3);
    assert_eq!((stream.read_cursor(), stream.filled_len()), (3, 4));
    assert_eq!(stream.fill_buf(), Ok(&b"d"[..]));
    assert_eq!(stream.buffer(), b"d");
    stream.consume(1);
    assert_eq!(stream.fill_buf(), Ok(&b"efgh"[..]));
    stream.consume(100);
    assert_eq!((stream.read_cursor(), stream.filled_len()), (4, 4));
    assert_eq!(stream.fill_buf(), Ok(&b"ij"[..]));
    assert_eq!((stream.read_cursor(), stream.filled_len()), (0, 2));
    stream.consume(2);
    assert_eq!(stream.fill_buf(), Err(IoFailure::WouldBlock));
    stream.get_mut().close();
    assert_eq!(stream.fill_buf(), Ok(&b""[..]));
}

#[test]
fn stream_without_room_holds_nothing() {
    let mut stream = HttpStream::with_capacity(0, loaded(b"abc"));
    assert_eq!(stream.capacity(), 0);
    assert_eq!((stream.read_cursor(), stream.filled_len()), (0, 0));
    assert!(stream.buffer().is_empty());
    // Nothing can be fetched into no room.
    assert_eq!(stream.fill_buf(), Ok(&b""[..]));
    stream.consume(5);
    assert_eq!((stream.read_cursor(), stream.filled_len()), (0, 0));
    // Every read goes to the connection directly.
    let mut two = [0u8; 2];
    assert_eq!(stream.read(&mut two), Ok(2));
    assert_eq!(&two, b"ab");
    assert_eq!(stream.read(&mut two), Ok(1));
    assert_eq!(&two, b"cb");
    assert_eq!(stream.read(&mut two), Err(IoFailure::WouldBlock));
    stream.get_mut().close();
    assert_eq!(stream.read(&mut two), Ok(0));
}

#[test]
fn lines_over_a_stream_without_room_end_at_once() {
    let mut reader = lines(HttpStream::with_capacity(0, loaded(b"first
second
")));
    assert_eq!(reader.next_line(), Ok(None));
    assert_eq!(reader.next_line(), Ok(None));
    // What is pending stays on the connection.
    assert_eq!(reader.connection_mut().pending_len(), 13);
}

#[test]
fn consume_stops_at_the_filled_length() {
    let mut stream = HttpStream::with_capacity(8, loaded(b"abc"));
    stream.fill_buf().unwrap();
    stream.consume(usize::MAX);
    assert!(stream.buffer().is_empty());
    stream.consume(1);
    assert!(stream.buffer().is_empty());
    stream.get_mut().deliver(b"de");
    assert_eq!(stream.fill_buf(), Ok(&b"de"[..]));
}

#[test]
fn read_gives_the_same_bytes_on_both_paths() {
    let data = b"0123456789abcdefghij";
    // Large destination, drained buffer: straight from the connection.
    let mut direct = HttpStream::with_capacity(4, loaded(data));
    let mut large = [0u8; 6];
    assert_eq!(direct.read(&mut large), Ok(6));
    assert_eq!(&large, b"012345");
    assert!(direct.buffer().is_empty());
    // Small destination: through the buffer.
    let mut buffered = HttpStream::with_capacity(4, loaded(data));
    let mut small = [0u8; 3];
    assert_eq!(buffered.read(&mut small), Ok(3));
    assert_eq!(&small, b"012");
    assert_eq!(buffered.buffer(), b"3");
    // Something is held: it comes first, and alone.
    assert_eq!(buffered.read(&mut large), Ok(1));
    assert_eq!(&large, b"312345");
    assert_eq!(buffered.read(&mut large), Ok(6));
    assert_eq!(&large, b"456789");
    // Read to the end on both and compare.
    let mut all_direct = large[..0].to_vec();
    let mut all_buffered = large[..0].to_vec();
    let mut one = HttpStream::with_capacity(4, loaded(data));
    let mut other = HttpStream::with_capacity(4, loaded(data));
    one.get_mut().close();
    other.get_mut().close();
    loop {
        let count = one.read(&mut large).unwrap();
        if count == 0 {
            break;
        }
        all_direct.extend_from_slice(&large[..count]);
    }
    loop {
        let count = other.read(&mut small).unwrap();
        if count == 0 {
            break;
        }
        all_buffered.extend_from_slice(&small[..count]);
    }
    assert_eq!(all_direct, data.to_vec());
    assert_eq!(all_buffered, data.to_vec());
}

#[test]
fn read_passes_errors_on() {
    let mut stream = HttpStream::with_capacity(4, Connection::new());
    let mut buffer = [0u8; 2];
    assert_eq!(stream.read(&mut buffer), Err(IoFailure::WouldBlock));
    let mut large = [0u8; 9];
    assert_eq!(stream.read(&mut large), Err(IoFailure::WouldBlock));
    stream.get_mut().fail("boom".to_string());
    assert_eq!(stream.read(&mut buffer), Err(IoFailure::Connection("boom".to_string())));
    assert_eq!(stream.read(&mut large), Err(IoFailure::Connection("boom".to_string())));
}

#[test]
fn lines_are_cut_at_newlines() {
    let mut reader = lines(HttpStream::with_capacity(3, loaded(b"first\nsecond\r\n\nla")));
    assert_eq!(reader.next_line(), Ok(Some("first".to_string())));
    assert_eq!(reader.next_line(), Ok(Some("second\r".to_string())));
    assert_eq!(reader.next_line(), Ok(Some(String::new())));
    assert_eq!(reader.next_line(), Err(IoFailure::WouldBlock));
    reader.connection_mut().deliver(b"st");
    assert_eq!(reader.next_line(), Err(IoFailure::WouldBlock));
    reader.connection_mut().close();
    assert_eq!(reader.next_line(), Ok(Some("last".to_string())));
    assert_eq!(reader.next_line(), Ok(None));
    assert_eq!(reader.next_line(), Ok(None));
}

#[test]
fn lines_keep_a_character_split_between_deliveries() {
    let bytes = "\u{20ac}uro\n".as_bytes();
    let mut reader = lines(HttpStream::with_capacity(2, loaded(&bytes[..1])));
    assert_eq!(reader.next_line(), Err(IoFailure::WouldBlock));
    reader.connection_mut().deliver(&bytes[1..2]);
    assert_eq!(reader.next_line(), Err(IoFailure::WouldBlock));
    reader.connection_mut().deliver(&bytes[2..]);
    assert_eq!(reader.next_line(), Ok(Some("\u{20ac}uro".to_string())));
}

#[test]
fn lines_reject_bytes_that_are_not_utf8() {
    let mut reader = lines(HttpStream::with_capacity(8, loaded(b"ok\n\xc3\x28\nnext\n")));
    assert_eq!(reader.next_line(), Ok(Some("ok".to_string())));
    assert_eq!(reader.next_line(), Err(IoFailure::Malformed(ParseFailure::InvalidUtf8)));
    assert_eq!(reader.next_line(), Ok(Some("next".to_string())));
}

#[test]
fn response_holds_its_body() {
    let response = HttpResponse::new("Hello World!".to_string());
    assert_eq!(response.body.text, "Hello World!");
}

#[test]
fn errors_have_texts() {
    let scheme = HttpResponseError::NotHttpScheme;
    assert_eq!(scheme.description(), "This hasn't http scheme");
    assert_eq!(scheme.to_text(), "Not HTTP Scheme: input string hasn't http scheme");
    let parse = HttpResponseError::ParseURL("empty host".to_string());
    assert_eq!(parse.description(), "empty host");
    assert_eq!(parse.to_text(), "Parse URL Error: empty host");
    let io = HttpResponseError::Io(IoFailure::Connection("broken pipe".to_string()));
    assert_eq!(io.description(), "broken pipe");
    assert_eq!(io.to_text(), "IO Error: broken pipe");
    let blocked = HttpResponseError::from(IoFailure::WouldBlock);
    assert_eq!(blocked.to_text(), "IO Error: operation would block");
    let short = HttpResponseError::from(IoFailure::from(ParseFailure::IncompleteBody));
    assert_eq!(short, HttpResponseError::Io(IoFailure::Malformed(ParseFailure::IncompleteBody)));
    assert_eq!(short.to_text(), "IO Error: stream ended before the body was complete");
    assert_eq!(ParseFailure::InvalidUtf8.description(), "stream did not contain valid UTF-8");
    assert_eq!(ParseFailure::MalformedHeader.description(), "header line without a colon");
    assert_eq!(
        ParseFailure::InvalidContentLength.description(),
        "Content-Length is not an integer"
    );
    assert_eq!(ParseFailure::MissingContentLength.description(), "no Content-Length header");
    assert_eq!(ParseFailure::NegativeContentLength.description(), "Content-Length is negative");
    assert_eq!(
        ParseFailure::IncompleteBody.description(),
        "stream ended before the body was complete"
    );
    assert_eq!(IoFailure::Malformed(ParseFailure::MalformedHeader).description(), "header line without a colon");
}
