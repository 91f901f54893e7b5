//! The line reader: it cuts the byte stream of a buffered reader at each
//! newline and hands the pieces out as text, one line at a time.

use crate::connection::{Connection, Status};
use crate::error::{IoFailure, IoFailureView, ParseFailure};
use crate::stream::{lemma_fill_keeps_pending, HttpStream};
use vstd::prelude::*;
use vstd::utf8::*;

verus! {

/// The byte that ends a line.
pub const NEWLINE: u8 = 0x0A;

/// What the line reader finds when it is asked for a line.
pub enum LineEvent {
    /// A line, without the newline that ended it.
    Line(Seq<u8>),
    /// The stream has ended and no line is left.
    End,
    /// The line is not complete yet, and the connection has no more for now.
    Blocked,
    /// The line is not complete and the connection broke.
    Broken,
}

/// A line reader as a mathematical value.
pub struct LinesView {
    /// The start of a line that is not complete yet.
    pub partial: Seq<u8>,
    /// What can still be read without a new delivery: what the buffered
    /// reader holds, then what is pending on the connection.
    pub pending: Seq<u8>,
    /// Where the connection stands.
    pub status: Status,
    /// The text of the connection's error, where it broke.
    pub failure: Seq<char>,
    /// What was written to the connection and not collected yet.
    pub sent: Seq<u8>,
    /// The size of the buffered reader's buffer.
    pub capacity: nat,
}

impl LinesView {
    /// What a request for a line finds. The line ends at the first newline
    /// among the pending bytes; a carriage return before it stays in the
    /// line. Where there is no newline, all pending bytes join the partial
    /// line, and the connection decides: a closed one ends the stream, and
    /// what was gathered is its last line, unless it is empty.
    ///
    /// A buffered reader without room never holds a byte, and a fetch that
    /// brings nothing is the end of the stream: over such a reader the
    /// stream ends at once, whatever is pending.
    pub open spec fn event(self) -> LineEvent {
        if self.capacity == 0 {
            if self.partial.len() == 0 {
                LineEvent::End
            } else {
                LineEvent::Line(self.partial)
            }
        } else {
            match self.pending.index_of_first(NEWLINE) {
                Some(at) => LineEvent::Line(self.partial + self.pending.take(at)),
                None => match self.status {
                    Status::Open => LineEvent::Blocked,
                    Status::Failed => LineEvent::Broken,
                    Status::Closed => if (self.partial + self.pending).len() == 0 {
                        LineEvent::End
                    } else {
                        LineEvent::Line(self.partial + self.pending)
                    },
                },
            }
        }
    }

    /// The reader after a request for a line.
    pub open spec fn advance(self) -> LinesView {
        if self.capacity == 0 {
            LinesView { partial: Seq::empty(), ..self }
        } else {
            match self.pending.index_of_first(NEWLINE) {
                Some(at) => LinesView {
                    partial: Seq::empty(),
                    pending: self.pending.skip(at + 1),
                    ..self
                },
                None => LinesView {
                    partial: if self.status == Status::Closed {
                        Seq::empty()
                    } else {
                        self.partial + self.pending
                    },
                    pending: Seq::empty(),
                    ..self
                },
            }
        }
    }

    /// The reader after the peer sent `chunk`: an open connection takes it.
    pub open spec fn deliver(self, chunk: Seq<u8>) -> LinesView {
        if self.status == Status::Open {
            LinesView { pending: self.pending + chunk, ..self }
        } else {
            self
        }
    }

    /// The reader after the peer closed the connection, if it was open.
    pub open spec fn close(self) -> LinesView {
        if self.status == Status::Open {
            LinesView { status: Status::Closed, ..self }
        } else {
            self
        }
    }

    /// The reader after the connection broke, if it was open.
    pub open spec fn fail(self, details: Seq<char>) -> LinesView {
        if self.status == Status::Open {
            LinesView { status: Status::Failed, failure: details, ..self }
        } else {
            self
        }
    }

    /// What a request for a line returns: the event, with the line decoded.
    pub open spec fn next_line_result(self) -> Result<Option<Seq<char>>, IoFailureView> {
        match self.event() {
            LineEvent::Line(raw) => if valid_utf8(raw) {
                Ok(Some(decode_utf8(raw)))
            } else {
                Err(IoFailureView::Malformed(ParseFailure::InvalidUtf8))
            },
            LineEvent::End => Ok(None),
            LineEvent::Blocked => Err(IoFailureView::WouldBlock),
            LineEvent::Broken => Err(IoFailureView::Connection(self.failure)),
        }
    }
}

/// Decodes `raw` with `String::from_utf8` of the standard library: the text
/// that `raw` encodes where it is valid UTF-8, nothing where it is not.
#[verifier::external_body]
fn decode(raw: Vec<u8>) -> (r: Option<String>)
    ensures
        r is Some <==> valid_utf8(raw@),
        r matches Some(text) ==> text@ == decode_utf8(raw@),
{
    match String::from_utf8(raw) {
        Ok(text) => Some(text),
        Err(_) => None,
    }
}

/// A line reader over a buffered reader.
pub struct Lines {
    io: HttpStream,
    line: Vec<u8>,
}

impl View for Lines {
    type V = LinesView;

    closed spec fn view(&self) -> LinesView {
        LinesView {
            partial: self.line@,
            pending: self.io@.pending(),
            status: self.io@.connection.status,
            failure: self.io@.connection.failure,
            sent: self.io@.connection.sent,
            capacity: self.io@.capacity,
        }
    }
}

/// A line reader over `io`, with no line begun.
pub fn lines(io: HttpStream) -> (reader: Lines)
    requires
        io.wf(),
    ensures
        reader.wf(),
        reader@ == (LinesView {
            partial: Seq::empty(),
            pending: io@.pending(),
            status: io@.connection.status,
            failure: io@.connection.failure,
            sent: io@.connection.sent,
            capacity: io@.capacity,
        }),
{
    Lines { io, line: Vec::new() }
}

impl Lines {
    /// The reader is well formed: its buffered reader is.
    pub closed spec fn wf(&self) -> bool {
        self.io.wf()
    }

    /// The bytes that the buffered reader holds: the front of what is
    /// pending, before what waits on the connection.
    pub closed spec fn held(&self) -> Seq<u8> {
        self.io@.unread
    }

    /// The connection underneath, for whoever feeds it. What the buffered
    /// reader holds stays in front of what the connection has pending.
    pub fn connection_mut(&mut self) -> (connection: &mut Connection)
        requires
            old(self).wf(),
        ensures
            connection.wf(),
            connection@.status == old(self)@.status,
            connection@.failure == old(self)@.failure,
            connection@.sent == old(self)@.sent,
            old(self)@.pending == old(self).held() + connection@.pending,
            final(connection).wf() ==> final(self).wf(),
            final(self)@ == (LinesView {
                partial: old(self)@.partial,
                pending: old(self).held() + final(connection)@.pending,
                status: final(connection)@.status,
                failure: final(connection)@.failure,
                sent: final(connection)@.sent,
                capacity: old(self)@.capacity,
            }),
    {
        self.io.get_mut()
    }

    /// Reads the next line: the bytes up to the first newline, decoded as
    /// UTF-8. The newline is taken off the stream and left out of the line;
    /// a carriage return before it is part of the line.
    pub fn next_line(&mut self) -> (r: Result<Option<String>, IoFailure>)
        requires
            old(self).wf(),
        ensures
            final(self).wf(),
            final(self)@ == old(self)@.advance(),
            match r {
                Ok(Some(text)) => old(self)@.next_line_result() == Ok::<
                    Option<Seq<char>>,
                    IoFailureView,
                >(Some(text@)),
                Ok(None) => old(self)@.next_line_result() == Ok::<
                    Option<Seq<char>>,
                    IoFailureView,
                >(None),
                Err(failure) => old(self)@.next_line_result() == Err::<
                    Option<Seq<char>>,
                    IoFailureView,
                >(failure@),
            },
    {
        let ghost start = self@;
        let ghost mut passed: Seq<u8> = Seq::empty();
        proof {
            assert(start.partial + passed =~= start.partial);
            assert(passed + start.pending =~= start.pending);
        }
        loop
            invariant
                self.wf(),
                start == old(self)@,
                self@.partial == start.partial + passed,
                start.pending == passed + self@.pending,
                forall|k: int| 0 <= k < passed.len() ==> passed[k] != NEWLINE,
                self@.status == start.status,
                self@.failure == start.failure,
                self@.sent == start.sent,
                self@.capacity == start.capacity,
                start.capacity == 0 ==> passed.len() == 0,
            decreases self@.pending.len(),
        {
            let ghost before = self.io@;
            proof {
                self.io.lemma_wf();
                lemma_fill_keeps_pending(before);
            }
            let held = match self.io.fill_buf() {
                Ok(held) => held,
                Err(failure) => {
                    proof {
                        assert(before.pending() =~= Seq::empty());
                        assert(start.pending =~= passed);
                        lemma_no_newline(start.pending);
                        assert(start.partial + start.pending =~= self@.partial);
                    }
                    return Err(failure);
                },
            };
            let count = held.len();
            if count == 0 {
                proof {
                    if start.capacity == 0 {
                        assert(self.line@ =~= start.partial);
                        assert(self@.pending =~= start.pending);
                        if self.line@.len() == 0 {
                            assert(self@.partial =~= Seq::empty());
                        }
                    } else {
                        assert(before.pending() =~= Seq::empty());
                        assert(start.pending =~= passed);
                        lemma_no_newline(start.pending);
                        assert(start.partial + start.pending =~= self.line@);
                    }
                }
                if self.line.len() == 0 {
                    return Ok(None);
                }
                let mut raw: Vec<u8> = Vec::new();
                raw.append(&mut self.line);
                return match decode(raw) {
                    Some(text) => Ok(Some(text)),
                    None => Err(IoFailure::Malformed(ParseFailure::InvalidUtf8)),
                };
            }
            let mut at: usize = 0;
            while at < count && held[at] != NEWLINE
                invariant
                    at <= count,
                    count == held@.len(),
                    forall|k: int| 0 <= k < at ==> held@[k] != NEWLINE,
                decreases count - at,
            {
                at = at + 1;
            }
            let ghost filled = before.fill();
            proof {
                assert(filled.pending() == before.pending());
                assert(held@ == filled.unread);
            }
            if at < count {
                self.line.extend_from_slice(vstd::slice::slice_subrange(held, 0, at));
                self.io.consume(at + 1);
                let mut raw: Vec<u8> = Vec::new();
                raw.append(&mut self.line);
                proof {
                    let first = passed.len() + at;
                    assert(start.pending =~= passed + filled.unread + filled.connection.pending);
                    assert(start.pending[first] == NEWLINE);
                    assert forall|k: int| 0 <= k < first implies start.pending[k] != NEWLINE by {
                        if k >= passed.len() {
                            assert(start.pending[k] == held@[k - passed.len()]);
                        }
                    }
                    lemma_first_newline(start.pending, first);
                    assert(raw@ =~= start.partial + start.pending.take(first));
                    assert(self@.pending =~= start.pending.skip(first + 1));
                    assert(self@.partial =~= Seq::empty());
                }
                return match decode(raw) {
                    Some(text) => Ok(Some(text)),
                    None => Err(IoFailure::Malformed(ParseFailure::InvalidUtf8)),
                };
            }
            self.line.extend_from_slice(held);
            self.io.consume(count);
            proof {
                let more = passed + held@;
                assert(self@.partial =~= start.partial + more);
                assert(start.pending =~= more + self@.pending);
                passed = more;
            }
        }
    }
}

/// Bytes without a newline have no first newline.
pub proof fn lemma_no_newline(bytes: Seq<u8>)
    requires
        forall|k: int| 0 <= k < bytes.len() ==> bytes[k] != NEWLINE,
    ensures
        bytes.index_of_first(NEWLINE) is None,
{
    bytes.index_of_first_ensures(NEWLINE);
}

/// The first newline is where a newline stands with none before it.
pub proof fn lemma_first_newline(bytes: Seq<u8>, at: int)
    requires
        0 <= at < bytes.len(),
        bytes[at] == NEWLINE,
        forall|k: int| 0 <= k < at ==> bytes[k] != NEWLINE,
    ensures
        bytes.index_of_first(NEWLINE) == Some(at),
{
    bytes.index_of_first_ensures(NEWLINE);
    assert(bytes.contains(NEWLINE));
}

} // verus!
