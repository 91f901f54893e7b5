//! The byte connection that an exchange runs over: a duplex stream held in
//! memory. Whoever owns the socket hands over what the peer sent with
//! `deliver`, `close` and `fail`, and collects what the client wrote with
//! `take_outgoing`; the reader takes the bytes out with `read`.

use crate::error::{IoFailure, IoFailureView};
use vstd::prelude::*;
use vstd::string::*;

verus! {

/// Where a connection stands once everything delivered so far has been read.
#[derive(Clone, Copy, Debug, PartialEq, Eq, Structural)]
pub enum Status {
    /// More may come.
    Open,
    /// The peer has closed: the stream ends here.
    Closed,
    /// The connection broke.
    Failed,
}

/// A connection as a mathematical value.
pub struct ConnectionView {
    /// What the peer sent and nobody has read yet.
    pub pending: Seq<u8>,
    /// What the client wrote and nobody has collected yet.
    pub sent: Seq<u8>,
    pub status: Status,
    /// The text of the error, where the connection broke.
    pub failure: Seq<char>,
}

impl ConnectionView {
    /// What a read into a buffer with `room` bytes returns: the number of
    /// bytes handed over, none when `room` is zero, as many as fit when any
    /// are pending; else the end of the stream (zero) on a closed
    /// connection, and an error on an open or a broken one.
    pub open spec fn read_result(self, room: nat) -> Result<nat, IoFailureView> {
        if room == 0 || self.pending.len() > 0 {
            Ok(if room <= self.pending.len() { room } else { self.pending.len() })
        } else {
            match self.status {
                Status::Open => Err(IoFailureView::WouldBlock),
                Status::Closed => Ok(0),
                Status::Failed => Err(IoFailureView::Connection(self.failure)),
            }
        }
    }

    /// The connection after the peer sent `chunk`: an open one takes it
    /// behind what is pending, a closed or broken one takes no more.
    pub open spec fn deliver(self, chunk: Seq<u8>) -> ConnectionView {
        if self.status == Status::Open {
            ConnectionView { pending: self.pending + chunk, ..self }
        } else {
            self
        }
    }

    /// The connection after the peer closed it, if it was open.
    pub open spec fn close(self) -> ConnectionView {
        if self.status == Status::Open {
            ConnectionView { status: Status::Closed, ..self }
        } else {
            self
        }
    }

    /// The connection once `count` pending bytes have been read.
    pub open spec fn after_read(self, count: nat) -> ConnectionView {
        ConnectionView { pending: self.pending.skip(count as int), ..self }
    }
}

/// A duplex byte stream in memory.
pub struct Connection {
    incoming: Vec<u8>,
    taken: usize,
    outgoing: Vec<u8>,
    status: Status,
    failure: String,
}

impl View for Connection {
    type V = ConnectionView;

    closed spec fn view(&self) -> ConnectionView {
        ConnectionView {
            pending: self.incoming@.skip(self.taken as int),
            sent: self.outgoing@,
            status: self.status,
            failure: self.failure@,
        }
    }
}

impl Connection {
    /// The connection is well formed: what was read lies within what was
    /// delivered.
    pub closed spec fn wf(&self) -> bool {
        self.taken <= self.incoming.len()
    }

    /// An open connection on which nothing has happened yet.
    pub fn new() -> (connection: Self)
        ensures
            connection.wf(),
            connection@ == (ConnectionView {
                pending: Seq::empty(),
                sent: Seq::empty(),
                status: Status::Open,
                failure: Seq::empty(),
            }),
    {
        let connection = Connection {
            incoming: Vec::new(),
            taken: 0,
            outgoing: Vec::new(),
            status: Status::Open,
            failure: String::new(),
        };
        assert(connection.incoming@.skip(0) =~= Seq::empty());
        connection
    }

    /// Where the connection stands.
    pub fn status(&self) -> (status: Status)
        ensures
            status == self@.status,
    {
        self.status
    }

    /// The number of bytes that wait to be read.
    pub fn pending_len(&self) -> (count: usize)
        requires
            self.wf(),
        ensures
            count == self@.pending.len(),
    {
        self.incoming.len() - self.taken
    }

    /// The peer sent `chunk`: on an open connection it is put behind what
    /// is pending. A connection that is closed or broken takes no more.
    pub fn deliver(&mut self, chunk: &[u8])
        requires
            old(self).wf(),
        ensures
            final(self).wf(),
            final(self)@ == old(self)@.deliver(chunk@),
    {
        if self.status == Status::Open {
            self.incoming.extend_from_slice(chunk);
            assert(self.incoming@.skip(self.taken as int) =~= old(self).incoming@.skip(
                self.taken as int,
            ) + chunk@);
        }
    }

    /// The peer closed an open connection.
    pub fn close(&mut self)
        requires
            old(self).wf(),
        ensures
            final(self).wf(),
            final(self)@ == old(self)@.close(),
    {
        if self.status == Status::Open {
            self.status = Status::Closed;
        }
    }

    /// An open connection broke, with `details` as the text of the error.
    pub fn fail(&mut self, details: String)
        requires
            old(self).wf(),
        ensures
            final(self).wf(),
            final(self)@ == if old(self)@.status == Status::Open {
                ConnectionView { status: Status::Failed, failure: details@, ..old(self)@ }
            } else {
                old(self)@
            },
    {
        if self.status == Status::Open {
            self.status = Status::Failed;
            self.failure = details;
        }
    }

    /// Reads into `buffer`: moves as many pending bytes as fit to its front.
    /// With nothing pending, a closed connection reports the end of the
    /// stream, an open one that it would block, a broken one its error.
    pub fn read(&mut self, buffer: &mut [u8]) -> (r: Result<usize, IoFailure>)
        requires
            old(self).wf(),
        ensures
            final(self).wf(),
            final(buffer)@.len() == old(buffer)@.len(),
            match r {
                Ok(count) => {
                    &&& old(self)@.read_result(old(buffer)@.len()) == Ok::<nat, IoFailureView>(
                        count as nat,
                    )
                    &&& final(self)@ == old(self)@.after_read(count as nat)
                    &&& final(buffer)@ == old(self)@.pending.take(count as int) + old(
                        buffer,
                    )@.skip(count as int)
                },
                Err(failure) => {
                    &&& old(self)@.read_result(old(buffer)@.len()) == Err::<nat, IoFailureView>(
                        failure@,
                    )
                    &&& final(self)@ == old(self)@
                    &&& final(buffer)@ == old(buffer)@
                },
            },
    {
        let available = self.incoming.len() - self.taken;
        if buffer.len() > 0 && available == 0 {
            return match self.status {
                Status::Open => Err(IoFailure::WouldBlock),
                Status::Closed => {
                    assert(buffer@ =~= self@.pending.take(0) + buffer@.skip(0));
                    assert(self@.pending.skip(0) =~= self@.pending);
                    Ok(0)
                },
                Status::Failed => Err(IoFailure::Connection(self.failure.clone())),
            };
        }
        let count = if buffer.len() <= available { buffer.len() } else { available };
        let mut i: usize = 0;
        while i < count
            invariant
                i <= count,
                count <= buffer@.len(),
                count <= self.incoming.len() - self.taken,
                self.taken <= self.incoming.len(),
                *self == *old(self),
                buffer@.len() == old(buffer)@.len(),
                buffer@ == self.incoming@.subrange(self.taken as int, self.taken + i) + old(
                    buffer,
                )@.skip(i as int),
            decreases count - i,
        {
            buffer[i] = self.incoming[self.taken + i];
            i = i + 1;
            assert(buffer@ =~= self.incoming@.subrange(self.taken as int, self.taken + i) + old(
                buffer,
            )@.skip(i as int));
        }
        assert(self.incoming@.subrange(self.taken as int, self.taken + count) =~= self@.pending.take(
            count as int,
        ));
        self.taken = self.taken + count;
        assert(self.incoming@.skip(self.taken as int) =~= old(self)@.pending.skip(count as int));
        if self.taken == self.incoming.len() {
            self.incoming.clear();
            self.taken = 0;
            assert(self.incoming@.skip(0) =~= old(self)@.pending.skip(count as int));
        }
        Ok(count)
    }

    /// Writes `data`: puts all of it behind what was written before. A
    /// broken connection takes nothing and reports its error.
    pub fn write(&mut self, data: &[u8]) -> (r: Result<usize, IoFailure>)
        requires
            old(self).wf(),
        ensures
            final(self).wf(),
            match r {
                Ok(count) => {
                    &&& old(self)@.status != Status::Failed
                    &&& count == data@.len()
                    &&& final(self)@ == (ConnectionView {
                        sent: old(self)@.sent + data@,
                        ..old(self)@
                    })
                },
                Err(failure) => {
                    &&& old(self)@.status == Status::Failed
                    &&& failure@ == IoFailureView::Connection(old(self)@.failure)
                    &&& final(self)@ == old(self)@
                },
            },
    {
        match self.status {
            Status::Failed => Err(IoFailure::Connection(self.failure.clone())),
            _ => {
                self.outgoing.extend_from_slice(data);
                assert(self.outgoing@ =~= old(self).outgoing@ + data@);
                Ok(data.len())
            },
        }
    }

    /// Collects what the client wrote: returns it and leaves nothing behind.
    pub fn take_outgoing(&mut self) -> (data: Vec<u8>)
        requires
            old(self).wf(),
        ensures
            final(self).wf(),
            data@ == old(self)@.sent,
            final(self)@ == (ConnectionView { sent: Seq::empty(), ..old(self)@ }),
    {
        let mut data: Vec<u8> = Vec::new();
        data.append(&mut self.outgoing);
        data
    }
}

} // verus!
