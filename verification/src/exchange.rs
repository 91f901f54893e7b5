//! One request and its response: the line reader feeds the state machine
//! until the body is complete, the stream is rejected, or the connection
//! has nothing more for now.

use crate::connection::Status;
use crate::error::{HttpResponseError, HttpResponseErrorView, IoFailure, IoFailureView};
use crate::lines::{lines, LineEvent, Lines, LinesView, NEWLINE};
use crate::parser::{Machine, ParseState};
use crate::response::HttpResponse;
use crate::stream::HttpStream;
use vstd::prelude::*;

verus! {

/// An exchange as a mathematical value.
pub struct ExchangeView {
    /// The state machine.
    pub machine: Machine,
    /// The line reader that feeds it.
    pub reader: LinesView,
}

/// The exchange once the machine has taken every line that can be had: it
/// stops at the line that ends the response, and else where the reader has
/// no further line. The end of the stream is told to the machine.
pub open spec fn settle(machine: Machine, reader: LinesView) -> ExchangeView
    decreases reader.pending.len(), reader.partial.len(),
{
    if machine.is_terminal() {
        ExchangeView { machine, reader }
    } else {
        match reader.event() {
            LineEvent::Line(raw) => {
                proof {
                    reader.pending.index_of_first_ensures(NEWLINE);
                }
                settle(machine.step_raw(raw), reader.advance())
            },
            LineEvent::End => ExchangeView { machine: machine.finish(), reader: reader.advance() },
            _ => ExchangeView { machine, reader: reader.advance() },
        }
    }
}

impl ExchangeView {
    /// What the exchange has come to: the body where the machine is
    /// complete, the error where it failed or the connection broke, and
    /// nothing while the response is still on its way.
    pub open spec fn verdict(self) -> Option<Result<Seq<char>, HttpResponseErrorView>> {
        match self.machine {
            Machine::Complete { body } => Some(Ok(body)),
            Machine::Failed { reason } => Some(
                Err(HttpResponseErrorView::Io(IoFailureView::Malformed(reason))),
            ),
            _ => if self.reader.status == Status::Failed {
                Some(Err(HttpResponseErrorView::Io(IoFailureView::Connection(self.reader.failure))))
            } else {
                None
            },
        }
    }
}

/// How far an exchange has come.
#[derive(Debug, PartialEq, Eq)]
pub enum Poll {
    /// The response is not complete and the connection is still open:
    /// deliver more, or close, and poll again.
    Pending,
    /// The exchange is over.
    Ready(Result<HttpResponse, HttpResponseError>),
}

impl View for Poll {
    type V = Option<Result<Seq<char>, HttpResponseErrorView>>;

    open spec fn view(&self) -> Self::V {
        match self {
            Poll::Pending => None,
            Poll::Ready(Ok(response)) => Some(Ok(response@)),
            Poll::Ready(Err(error)) => Some(Err(error@)),
        }
    }
}

/// One exchange over one connection.
pub struct Exchange {
    lines: Lines,
    state: ParseState,
}

impl View for Exchange {
    type V = ExchangeView;

    closed spec fn view(&self) -> ExchangeView {
        ExchangeView { machine: self.state@, reader: self.lines@ }
    }
}

impl Exchange {
    /// The exchange is well formed: its line reader and its machine are.
    pub closed spec fn wf(&self) -> bool {
        self.lines.wf() && self.state.wf()
    }

    /// An exchange that reads its response from `stream`, with the machine
    /// at its start.
    pub fn new(stream: HttpStream) -> (exchange: Self)
        requires
            stream.wf(),
        ensures
            exchange.wf(),
            exchange@ == (ExchangeView {
                machine: Machine::initial(),
                reader: LinesView {
                    partial: Seq::empty(),
                    pending: stream@.pending(),
                    status: stream@.connection.status,
                    failure: stream@.connection.failure,
                    sent: stream@.connection.sent,
                    capacity: stream@.capacity,
                },
            }),
    {
        Exchange { lines: lines(stream), state: ParseState::new() }
    }

    /// The peer sent `chunk`: it is put behind what is pending, if the
    /// connection is open.
    pub fn deliver(&mut self, chunk: &[u8])
        requires
            old(self).wf(),
        ensures
            final(self).wf(),
            final(self)@ == (ExchangeView {
                reader: old(self)@.reader.deliver(chunk@),
                ..old(self)@
            }),
    {
        let connection = self.lines.connection_mut();
        let ghost before = connection@.pending;
        connection.deliver(chunk);
        proof {
            assert(old(self).lines.held() + (before + chunk@) =~= old(self)@.reader.pending
                + chunk@);
        }
    }

    /// The peer closed the connection, if it was open.
    pub fn close(&mut self)
        requires
            old(self).wf(),
        ensures
            final(self).wf(),
            final(self)@ == (ExchangeView { reader: old(self)@.reader.close(), ..old(self)@ }),
    {
        let connection = self.lines.connection_mut();
        connection.close();
    }

    /// The connection broke, if it was open; `details` is the text of the
    /// error.
    pub fn fail(&mut self, details: String)
        requires
            old(self).wf(),
        ensures
            final(self).wf(),
            final(self)@ == (ExchangeView {
                reader: old(self)@.reader.fail(details@),
                ..old(self)@
            }),
    {
        let connection = self.lines.connection_mut();
        connection.fail(details);
    }

    /// Collects what was written to the connection: returns it and leaves
    /// nothing behind.
    pub fn take_outgoing(&mut self) -> (data: Vec<u8>)
        requires
            old(self).wf(),
        ensures
            final(self).wf(),
            data@ == old(self)@.reader.sent,
            final(self)@ == (ExchangeView {
                reader: LinesView { sent: Seq::empty(), ..old(self)@.reader },
                ..old(self)@
            }),
    {
        let connection = self.lines.connection_mut();
        connection.take_outgoing()
    }

    /// What the machine has come to.
    fn result(&self) -> (r: Poll)
        ensures
            r@ == match self@.machine {
                Machine::Complete { body } => Some(
                    Ok::<Seq<char>, HttpResponseErrorView>(body),
                ),
                Machine::Failed { reason } => Some(
                    Err::<Seq<char>, HttpResponseErrorView>(
                        HttpResponseErrorView::Io(IoFailureView::Malformed(reason)),
                    ),
                ),
                _ => None,
            },
    {
        match self.state.outcome() {
            Some(Ok(text)) => Poll::Ready(Ok(HttpResponse::new(text))),
            Some(Err(reason)) => Poll::Ready(Err(HttpResponseError::Io(IoFailure::Malformed(reason)))),
            None => Poll::Pending,
        }
    }

    /// Takes the lines that can be had and feeds them to the machine, one
    /// by one and in order, until the machine is done or no line is left.
    /// The answer is the response once the body is complete, the error once
    /// the stream is rejected, has ended too early or the connection broke,
    /// and `Pending` where the connection is open and has no more for now.
    pub fn poll(&mut self) -> (r: Poll)
        requires
            old(self).wf(),
        ensures
            final(self).wf(),
            final(self)@ == settle(old(self)@.machine, old(self)@.reader),
            r@ == final(self)@.verdict(),
    {
        loop
            invariant
                self.wf(),
                settle(self@.machine, self@.reader) == settle(old(self)@.machine, old(self)@.reader),
            decreases self@.reader.pending.len(), self@.reader.partial.len(),
        {
            if self.state.is_terminal() {
                return self.result();
            }
            proof {
                self@.reader.pending.index_of_first_ensures(NEWLINE);
            }
            match self.lines.next_line() {
                Ok(Some(text)) => {
                    self.state.step(text.as_str());
                },
                Ok(None) => {
                    self.state.finish();
                    return self.result();
                },
                Err(failure) => match failure {
                    IoFailure::WouldBlock => {
                        return Poll::Pending;
                    },
                    IoFailure::Malformed(reason) => {
                        self.state.reject(reason);
                    },
                    IoFailure::Connection(details) => {
                        return Poll::Ready(
                            Err(HttpResponseError::Io(IoFailure::Connection(details))),
                        );
                    },
                },
            }
        }
    }
}

} // verus!
