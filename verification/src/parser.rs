//! The response state machine: it takes the lines of a response one by one,
//! follows the headers to the body and gathers the body until the declared
//! length is used up.

use crate::error::ParseFailure;
use crate::text::{
    contains, find, index_of, matches_at, parse_integer, read_integer, starts_with, to_chars,
    trim, trim_bounds,
};
use vstd::prelude::*;
use vstd::string::*;
use vstd::utf8::*;

verus! {

/// What the state machine expects of the next line.
#[derive(Clone, Copy, Debug, PartialEq, Eq, Structural)]
pub enum Phase {
    /// Status line and headers.
    HeaderPhase,
    /// Lines of the body.
    BodyPhase,
    /// The body is complete: no further line is taken.
    Complete,
    /// The stream was rejected: no further line is taken.
    Failed,
}

/// How a line reads while the machine is in the header phase.
#[derive(Clone, Copy, Debug, PartialEq, Eq, Structural)]
pub enum LineKind {
    /// The line holds `HTTP`: a status line.
    Status,
    /// The line is empty but for whitespace: the headers end here.
    Blank,
    /// A `Content-Length` header with its value.
    ContentLength(i64),
    /// Some other header.
    OtherHeader,
    /// Not a header: the line has no colon.
    MissingColon,
    /// A `Content-Length` header whose value is not an integer.
    BadLength,
}

/// The kind of a header-phase line. The tests are made in this order: a line
/// that holds `HTTP` is a status line; a line of whitespace is the blank
/// line; any other line is split at its first colon into name and value,
/// and a name that begins with `Content-Length` declares the length.
///
/// The status line is found by its substring alone, so a header whose name
/// or value holds `HTTP` reads as a status line and is passed over.
pub open spec fn classify(line: Seq<char>) -> LineKind {
    if contains(line, "HTTP"@) {
        LineKind::Status
    } else if trim(line).len() == 0 {
        LineKind::Blank
    } else {
        match line.index_of_first(':') {
            None => LineKind::MissingColon,
            Some(colon) => {
                if starts_with(trim(line.take(colon)), "Content-Length"@) {
                    match parse_integer(trim(line.skip(colon + 1))) {
                        Some(length) => LineKind::ContentLength(length),
                        None => LineKind::BadLength,
                    }
                } else {
                    LineKind::OtherHeader
                }
            },
        }
    }
}

/// What a line takes from the declared length: its bytes and the newline
/// that ended it.
///
/// The length is counted line by line, not byte by byte: the last line is
/// charged a newline whether it had one or not, so a body whose last byte
/// is a newline is complete one line early and comes back without it.
pub open spec fn line_cost(line: Seq<char>) -> int {
    encode_utf8(line).len() as int + 1
}

/// The state machine as a mathematical value.
pub enum Machine {
    /// Reading headers; `declared` is the last `Content-Length` seen.
    Header { declared: Option<i64> },
    /// Reading the body: `remaining` bytes are still expected, `body` holds
    /// the lines taken so far, each followed by a newline.
    Body { remaining: int, body: Seq<char> },
    /// Done, with the body.
    Complete { body: Seq<char> },
    /// Rejected, with the reason.
    Failed { reason: ParseFailure },
}

impl Machine {
    /// The machine before the first line.
    pub open spec fn initial() -> Machine {
        Machine::Header { declared: None }
    }

    /// The phase that the machine is in.
    pub open spec fn phase(self) -> Phase {
        match self {
            Machine::Header { .. } => Phase::HeaderPhase,
            Machine::Body { .. } => Phase::BodyPhase,
            Machine::Complete { .. } => Phase::Complete,
            Machine::Failed { .. } => Phase::Failed,
        }
    }

    /// Whether the machine takes no further line.
    pub open spec fn is_terminal(self) -> bool {
        self is Complete || self is Failed
    }

    /// The machine at the end of the headers. Without a declared length, or
    /// with a negative one, the stream is rejected; a length of zero needs
    /// no body and completes the response; any other opens the body.
    pub open spec fn enter_body(declared: Option<i64>) -> Machine {
        match declared {
            None => Machine::Failed { reason: ParseFailure::MissingContentLength },
            Some(length) => if length < 0 {
                Machine::Failed { reason: ParseFailure::NegativeContentLength }
            } else if length == 0 {
                Machine::Complete { body: Seq::empty() }
            } else {
                Machine::Body { remaining: length as int, body: Seq::empty() }
            },
        }
    }

    /// The machine after one more line. In the body phase the line is
    /// charged against what remains and appended with a newline; once nothing
    /// remains the newline of the last line is dropped and the machine is
    /// complete. In the header phase the line is classified.
    pub open spec fn step(self, line: Seq<char>) -> Machine {
        match self {
            Machine::Body { remaining, body } => {
                if remaining - line_cost(line) <= 0 {
                    Machine::Complete { body: body + line }
                } else {
                    Machine::Body {
                        remaining: remaining - line_cost(line),
                        body: body + line + seq!['\n'],
                    }
                }
            },
            Machine::Header { declared } => match classify(line) {
                LineKind::Status => self,
                LineKind::Blank => Machine::enter_body(declared),
                LineKind::ContentLength(length) => Machine::Header { declared: Some(length) },
                LineKind::OtherHeader => self,
                LineKind::MissingColon => Machine::Failed {
                    reason: ParseFailure::MalformedHeader,
                },
                LineKind::BadLength => Machine::Failed {
                    reason: ParseFailure::InvalidContentLength,
                },
            },
            _ => self,
        }
    }

    /// The machine after one more line given as bytes: the line is decoded
    /// first, and rejected where it is not UTF-8.
    pub open spec fn step_raw(self, raw: Seq<u8>) -> Machine {
        if self.is_terminal() {
            self
        } else if valid_utf8(raw) {
            self.step(decode_utf8(raw))
        } else {
            Machine::Failed { reason: ParseFailure::InvalidUtf8 }
        }
    }

    /// The machine once the stream has ended: whatever is not complete by
    /// then has failed.
    pub open spec fn finish(self) -> Machine {
        if self.is_terminal() {
            self
        } else {
            Machine::Failed { reason: ParseFailure::IncompleteBody }
        }
    }
}

/// Classifies a header-phase line.
pub fn classify_line(line: &str) -> (kind: LineKind)
    ensures
        kind == classify(line@),
{
    let chars = to_chars(line);
    let token = to_chars("HTTP");
    if find(&chars, &token) {
        return LineKind::Status;
    }
    let (lo, hi) = trim_bounds(&chars, 0, chars.len());
    assert(chars@.subrange(0, chars.len() as int) == chars@);
    if lo == hi {
        return LineKind::Blank;
    }
    match index_of(&chars, ':') {
        None => LineKind::MissingColon,
        Some(colon) => {
            let name = trim_bounds(&chars, 0, colon);
            let value = trim_bounds(&chars, colon + 1, chars.len());
            assert(chars@.subrange(0, colon as int) == chars@.take(colon as int));
            assert(chars@.subrange(colon + 1, chars.len() as int) == chars@.skip(colon + 1));
            let header = to_chars("Content-Length");
            if prefix_matches(&chars, name.0, name.1, &header) {
                match read_integer(&chars, value.0, value.1) {
                    Some(length) => LineKind::ContentLength(length),
                    None => LineKind::BadLength,
                }
            } else {
                LineKind::OtherHeader
            }
        },
    }
}

/// Tells whether the part of `text` between `from` and `to` begins with
/// `pattern`.
fn prefix_matches(text: &Vec<char>, from: usize, to: usize, pattern: &Vec<char>) -> (r: bool)
    requires
        from <= to <= text.len(),
    ensures
        r == starts_with(text@.subrange(from as int, to as int), pattern@),
{
    if pattern.len() > to - from {
        return false;
    }
    let r = matches_at(text, pattern, from);
    assert(forall|k: int|
        0 <= k < pattern.len() ==> text@.subrange(from as int, to as int)[k] == text@[from + k]);
    r
}

/// The working memory of the state machine.
pub struct ParseState {
    phase: Phase,
    remaining_body_bytes: i64,
    length_seen: bool,
    accumulated_body: String,
    failure: ParseFailure,
}

impl View for ParseState {
    type V = Machine;

    closed spec fn view(&self) -> Machine {
        match self.phase {
            Phase::HeaderPhase => Machine::Header {
                declared: if self.length_seen {
                    Some(self.remaining_body_bytes)
                } else {
                    None
                },
            },
            Phase::BodyPhase => Machine::Body {
                remaining: self.remaining_body_bytes as int,
                body: self.accumulated_body@,
            },
            Phase::Complete => Machine::Complete { body: self.accumulated_body@ },
            Phase::Failed => Machine::Failed { reason: self.failure },
        }
    }
}

impl ParseState {
    /// The state is well formed: nothing is gathered before the body phase,
    /// and in the body phase something is still expected.
    pub closed spec fn wf(&self) -> bool {
        &&& self.phase == Phase::HeaderPhase ==> self.accumulated_body@.len() == 0
        &&& self.phase == Phase::BodyPhase ==> self.remaining_body_bytes > 0
    }

    /// The machine before the first line.
    pub fn new() -> (state: Self)
        ensures
            state.wf(),
            state@ == Machine::initial(),
    {
        ParseState {
            phase: Phase::HeaderPhase,
            remaining_body_bytes: 0,
            length_seen: false,
            accumulated_body: String::new(),
            failure: ParseFailure::IncompleteBody,
        }
    }

    /// The current phase.
    pub fn phase(&self) -> (phase: Phase)
        ensures
            phase == self@.phase(),
    {
        self.phase
    }

    /// Tells whether the machine takes no further line.
    pub fn is_terminal(&self) -> (r: bool)
        ensures
            r == self@.is_terminal(),
    {
        match self.phase {
            Phase::Complete | Phase::Failed => true,
            _ => false,
        }
    }

    /// The bytes of body still expected: the declared length in the header
    /// phase, what is left of it in the body phase, and nothing once the
    /// machine is done.
    pub fn remaining_body_bytes(&self) -> (remaining: Option<i64>)
        ensures
            match self@ {
                Machine::Header { declared } => remaining == declared,
                Machine::Body { remaining: left, .. } => remaining matches Some(count) && count
                    == left,
                _ => remaining is None,
            },
    {
        match self.phase {
            Phase::HeaderPhase => if self.length_seen {
                Some(self.remaining_body_bytes)
            } else {
                None
            },
            Phase::BodyPhase => Some(self.remaining_body_bytes),
            _ => None,
        }
    }

    /// Takes one decoded line and moves the machine by it.
    pub fn step(&mut self, line: &str) -> (phase: Phase)
        requires
            old(self).wf(),
        ensures
            final(self).wf(),
            final(self)@ == old(self)@.step(line@),
            phase == final(self)@.phase(),
    {
        match self.phase {
            Phase::BodyPhase => {
                let length = line.as_bytes().len();
                if length as u64 >= (self.remaining_body_bytes - 1) as u64 {
                    self.accumulated_body.append(line);
                    self.phase = Phase::Complete;
                } else {
                    self.remaining_body_bytes = self.remaining_body_bytes - (length as i64 + 1);
                    self.accumulated_body.append(line);
                    self.accumulated_body.append("\n");
                    proof {
                        reveal_strlit("\n");
                        assert("\n"@ == seq!['\n']);
                    }
                }
            },
            Phase::HeaderPhase => {
                match classify_line(line) {
                    LineKind::Status => {},
                    LineKind::Blank => {
                        if !self.length_seen {
                            self.phase = Phase::Failed;
                            self.failure = ParseFailure::MissingContentLength;
                        } else if self.remaining_body_bytes < 0 {
                            self.phase = Phase::Failed;
                            self.failure = ParseFailure::NegativeContentLength;
                        } else if self.remaining_body_bytes == 0 {
                            self.phase = Phase::Complete;
                        } else {
                            self.phase = Phase::BodyPhase;
                        }
                        assert(self.accumulated_body@ =~= Seq::empty());
                    },
                    LineKind::ContentLength(length) => {
                        self.remaining_body_bytes = length;
                        self.length_seen = true;
                    },
                    LineKind::OtherHeader => {},
                    LineKind::MissingColon => {
                        self.phase = Phase::Failed;
                        self.failure = ParseFailure::MalformedHeader;
                    },
                    LineKind::BadLength => {
                        self.phase = Phase::Failed;
                        self.failure = ParseFailure::InvalidContentLength;
                    },
                }
            },
            _ => {},
        }
        self.phase
    }

    /// Rejects the stream for `reason`, unless the machine is done already.
    pub fn reject(&mut self, reason: ParseFailure) -> (phase: Phase)
        requires
            old(self).wf(),
        ensures
            final(self).wf(),
            final(self)@ == if old(self)@.is_terminal() {
                old(self)@
            } else {
                Machine::Failed { reason }
            },
            phase == final(self)@.phase(),
    {
        if !self.is_terminal() {
            self.phase = Phase::Failed;
            self.failure = reason;
        }
        self.phase
    }

    /// Tells the machine that the stream has ended.
    pub fn finish(&mut self) -> (phase: Phase)
        requires
            old(self).wf(),
        ensures
            final(self).wf(),
            final(self)@ == old(self)@.finish(),
            phase == final(self)@.phase(),
    {
        self.reject(ParseFailure::IncompleteBody)
    }

    /// What the machine ended with: the body where it is complete, the
    /// reason where it failed, nothing while it is still reading.
    pub fn outcome(&self) -> (r: Option<Result<String, ParseFailure>>)
        ensures
            match self@ {
                Machine::Complete { body } => r matches Some(Ok(text)) && text@ == body,
                Machine::Failed { reason } => r == Some(
                    Err::<String, ParseFailure>(reason),
                ),
                _ => r is None,
            },
    {
        match self.phase {
            Phase::Complete => Some(Ok(self.accumulated_body.clone())),
            Phase::Failed => Some(Err(self.failure)),
            _ => None,
        }
    }
}

} // verus!
