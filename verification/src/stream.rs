//! The buffered stream reader: it stands between a connection and whoever
//! reads it, fetches from the connection only when its own buffer is used
//! up, and never hands out a byte twice or drops one.

use crate::connection::{Connection, ConnectionView};
use crate::error::{IoFailure, IoFailureView};
use vstd::prelude::*;

verus! {

/// The size of the buffer of a reader made with `HttpStream::new`.
pub const DEFAULT_HTTP_BUF_SIZE: usize = 8 * 1024;

/// A buffered reader as a mathematical value.
pub struct StreamView {
    /// The size of the buffer.
    pub capacity: nat,
    /// The offset of the next byte to hand out.
    pub read_cursor: nat,
    /// The offset behind the last byte that the last fetch brought.
    pub filled_len: nat,
    /// The bytes between the two: fetched and not yet handed out.
    pub unread: Seq<u8>,
    /// The connection underneath.
    pub connection: ConnectionView,
}

impl StreamView {
    /// Everything that the reader can still hand out without a new delivery:
    /// what it holds, then what is pending on the connection.
    pub open spec fn pending(self) -> Seq<u8> {
        self.unread + self.connection.pending
    }

    /// Whether the buffer holds nothing to hand out.
    pub open spec fn drained(self) -> bool {
        self.unread.len() == 0
    }

    /// What `fill_buf` returns: what is held, or on a drained buffer the
    /// outcome of one read from the connection into the whole buffer.
    pub open spec fn fill_result(self) -> Result<Seq<u8>, IoFailureView> {
        if !self.drained() {
            Ok(self.unread)
        } else {
            match self.connection.read_result(self.capacity) {
                Ok(count) => Ok(self.connection.pending.take(count as int)),
                Err(failure) => Err(failure),
            }
        }
    }

    /// The reader after `fill_buf`.
    pub open spec fn fill(self) -> StreamView {
        if !self.drained() {
            self
        } else {
            match self.connection.read_result(self.capacity) {
                Ok(count) => StreamView {
                    capacity: self.capacity,
                    read_cursor: 0,
                    filled_len: count,
                    unread: self.connection.pending.take(count as int),
                    connection: self.connection.after_read(count),
                },
                Err(_) => self,
            }
        }
    }

    /// The number of bytes that `consume(amount)` passes over.
    pub open spec fn consumed(self, amount: nat) -> nat {
        if amount <= self.unread.len() {
            amount
        } else {
            self.unread.len()
        }
    }

    /// The reader after `consume(amount)`: the cursor moves forward by
    /// `amount`, and stops at the end of what is held.
    pub open spec fn consume(self, amount: nat) -> StreamView {
        StreamView {
            read_cursor: self.read_cursor + self.consumed(amount),
            unread: self.unread.skip(self.consumed(amount) as int),
            ..self
        }
    }

    /// Whether `read` into `room` bytes goes to the connection directly.
    pub open spec fn bypasses(self, room: nat) -> bool {
        self.drained() && room >= self.capacity
    }

    /// What `read` into `room` bytes returns: the number of bytes handed
    /// over, or the connection's error.
    pub open spec fn read_result(self, room: nat) -> Result<nat, IoFailureView> {
        if self.bypasses(room) {
            self.connection.read_result(room)
        } else {
            match self.fill_result() {
                Ok(held) => Ok(if room <= held.len() { room } else { held.len() }),
                Err(failure) => Err(failure),
            }
        }
    }

    /// The reader after `read` into `room` bytes.
    pub open spec fn read(self, room: nat) -> StreamView {
        match self.read_result(room) {
            Ok(count) => if self.bypasses(room) {
                StreamView { connection: self.connection.after_read(count), ..self }
            } else {
                self.fill().consume(count)
            },
            Err(_) => self,
        }
    }
}

/// A buffered reader over a connection.
pub struct HttpStream {
    inner: Connection,
    /// The buffer: its length never changes.
    buffer: Vec<u8>,
    /// The read cursor.
    position: usize,
    /// The filled length.
    filled: usize,
}

impl View for HttpStream {
    type V = StreamView;

    closed spec fn view(&self) -> StreamView {
        StreamView {
            capacity: self.buffer@.len(),
            read_cursor: self.position as nat,
            filled_len: self.filled as nat,
            unread: self.buffer@.subrange(self.position as int, self.filled as int),
            connection: self.inner@,
        }
    }
}

impl HttpStream {
    /// The reader is well formed: the cursor is not behind the filled
    /// length, which is within the buffer.
    pub closed spec fn wf(&self) -> bool {
        &&& self.inner.wf()
        &&& self.position <= self.filled <= self.buffer@.len()
    }

    /// What well-formedness means for the value.
    pub proof fn lemma_wf(&self)
        requires
            self.wf(),
        ensures
            self@.read_cursor <= self@.filled_len <= self@.capacity,
            self@.unread.len() == self@.filled_len - self@.read_cursor,
    {
    }

    /// A reader over `inner` with a buffer of the default size.
    pub fn new(inner: Connection) -> (stream: Self)
        requires
            inner.wf(),
        ensures
            stream.wf(),
            stream@ == (StreamView {
                capacity: DEFAULT_HTTP_BUF_SIZE as nat,
                read_cursor: 0,
                filled_len: 0,
                unread: Seq::empty(),
                connection: inner@,
            }),
    {
        HttpStream::with_capacity(DEFAULT_HTTP_BUF_SIZE, inner)
    }

    /// A reader over `inner` with a buffer of `capacity` bytes, all of them
    /// zero, and none of them counted as read from the connection. With a
    /// capacity of zero nothing is ever held: every `read` goes to the
    /// connection directly, and `fill_buf` hands out nothing.
    pub fn with_capacity(capacity: usize, inner: Connection) -> (stream: Self)
        requires
            inner.wf(),
        ensures
            stream.wf(),
            stream@ == (StreamView {
                capacity: capacity as nat,
                read_cursor: 0,
                filled_len: 0,
                unread: Seq::empty(),
                connection: inner@,
            }),
    {
        let stream = HttpStream { inner, buffer: vec![0u8; capacity], position: 0, filled: 0 };
        assert(stream.buffer@.subrange(0, 0) =~= Seq::empty());
        stream
    }

    /// The size of the buffer.
    pub fn capacity(&self) -> (capacity: usize)
        ensures
            capacity == self@.capacity,
    {
        self.buffer.len()
    }

    /// The offset of the next byte to hand out.
    pub fn read_cursor(&self) -> (cursor: usize)
        ensures
            cursor == self@.read_cursor,
    {
        self.position
    }

    /// The offset behind the last byte that the last fetch brought.
    pub fn filled_len(&self) -> (filled: usize)
        ensures
            filled == self@.filled_len,
    {
        self.filled
    }

    /// The bytes that are held: fetched and not yet handed out.
    pub fn buffer(&self) -> (held: &[u8])
        requires
            self.wf(),
        ensures
            held@ == self@.unread,
    {
        vstd::slice::slice_subrange(self.buffer.as_slice(), self.position, self.filled)
    }

    /// The connection underneath, for whoever feeds it.
    pub fn get_mut(&mut self) -> (connection: &mut Connection)
        requires
            old(self).wf(),
        ensures
            connection.wf(),
            connection@ == old(self)@.connection,
            final(connection).wf() ==> final(self).wf(),
            final(self)@ == (StreamView { connection: final(connection)@, ..old(self)@ }),
    {
        &mut self.inner
    }

    /// Hands out what is held. Where nothing is held, one read from the
    /// connection into the whole buffer comes first: the cursor goes back
    /// to the start and the filled length becomes the number of bytes read,
    /// which is zero at the end of the stream. An error of the connection is
    /// passed on and leaves the reader as it was.
    pub fn fill_buf(&mut self) -> (r: Result<&[u8], IoFailure>)
        requires
            old(self).wf(),
        ensures
            final(self).wf(),
            final(self)@ == old(self)@.fill(),
            match r {
                Ok(held) => old(self)@.fill_result() == Ok::<Seq<u8>, IoFailureView>(held@),
                Err(failure) => old(self)@.fill_result() == Err::<Seq<u8>, IoFailureView>(
                    failure@,
                ),
            },
    {
        if self.position >= self.filled {
            let count = match self.inner.read(self.buffer.as_mut_slice()) {
                Ok(count) => count,
                Err(failure) => {
                    return Err(failure);
                },
            };
            self.filled = count;
            self.position = 0;
            assert(self.buffer@.subrange(0, count as int) =~= old(self)@.connection.pending.take(
                count as int,
            ));
        }
        Ok(vstd::slice::slice_subrange(self.buffer.as_slice(), self.position, self.filled))
    }

    /// Passes over `amount` bytes of what is held, or over all of it where
    /// less is held.
    pub fn consume(&mut self, amount: usize)
        requires
            old(self).wf(),
        ensures
            final(self).wf(),
            final(self)@ == old(self)@.consume(amount as nat),
    {
        if amount >= self.filled - self.position {
            self.position = self.filled;
        } else {
            self.position = self.position + amount;
        }
        assert(self.buffer@.subrange(self.position as int, self.filled as int) =~= old(
            self,
        )@.unread.skip(old(self)@.consumed(amount as nat) as int));
    }

    /// Reads into `destination`. Where nothing is held and `destination` is
    /// at least as large as the buffer, the connection reads into
    /// `destination` directly. Otherwise the bytes come out of the buffer,
    /// after a fetch where it was drained: as many as are held and fit, and
    /// the cursor passes over them.
    pub fn read(&mut self, destination: &mut [u8]) -> (r: Result<usize, IoFailure>)
        requires
            old(self).wf(),
        ensures
            final(self).wf(),
            final(self)@ == old(self)@.read(old(destination)@.len()),
            final(destination)@.len() == old(destination)@.len(),
            match r {
                Ok(count) => {
                    &&& old(self)@.read_result(old(destination)@.len()) == Ok::<
                        nat,
                        IoFailureView,
                    >(count as nat)
                    &&& final(destination)@ == old(self)@.pending().take(count as int) + old(
                        destination,
                    )@.skip(count as int)
                },
                Err(failure) => {
                    &&& old(self)@.read_result(old(destination)@.len()) == Err::<
                        nat,
                        IoFailureView,
                    >(failure@)
                    &&& final(destination)@ == old(destination)@
                },
            },
    {
        if self.position == self.filled && destination.len() >= self.buffer.len() {
            let r = self.inner.read(destination);
            proof {
                if let Ok(count) = r {
                    assert(old(self)@.unread =~= Seq::empty());
                    assert(old(self)@.pending().take(count as int) =~= old(
                        self,
                    )@.connection.pending.take(count as int));
                }
            }
            return r;
        }
        let ghost before = self@;
        let count = {
            let held = match self.fill_buf() {
                Ok(held) => held,
                Err(failure) => {
                    return Err(failure);
                },
            };
            let count = if destination.len() <= held.len() { destination.len() } else { held.len() };
            let mut i: usize = 0;
            while i < count
                invariant
                    i <= count <= held@.len(),
                    count <= destination@.len(),
                    destination@.len() == old(destination)@.len(),
                    destination@ == held@.take(i as int) + old(destination)@.skip(i as int),
                decreases count - i,
            {
                destination[i] = held[i];
                i = i + 1;
                assert(destination@ =~= held@.take(i as int) + old(destination)@.skip(i as int));
            }
            proof {
                let filled = before.fill();
                assert(held@ == filled.unread);
                assert(filled.unread.take(count as int) =~= before.pending().take(count as int))
                    by {
                    if before.drained() {
                        assert(before.unread =~= Seq::empty());
                    }
                }
            }
            count
        };
        self.consume(count);
        Ok(count)
    }
}

/// A fetch moves bytes from the connection into the buffer and loses none:
/// what can be read is the same before and after.
pub proof fn lemma_fill_keeps_pending(stream: StreamView)
    ensures
        stream.fill().pending() == stream.pending(),
{
    if stream.drained() {
        if let Ok(count) = stream.connection.read_result(stream.capacity) {
            assert(stream.unread =~= Seq::empty());
            assert(stream.fill().pending() =~= stream.pending());
        }
    }
}

/// A read hands out the front of what can be read, and leaves the rest in
/// its order: no byte is dropped and none comes twice.
pub proof fn lemma_read_takes_the_front(stream: StreamView, room: nat)
    ensures
        stream.read_result(room) matches Ok(count) ==> count <= room && count
            <= stream.pending().len() && stream.read(room).pending() == stream.pending().skip(
            count as int,
        ),
{
    if let Ok(count) = stream.read_result(room) {
        if stream.bypasses(room) {
            assert(stream.unread =~= Seq::empty());
            assert(stream.read(room).pending() =~= stream.pending().skip(count as int));
        } else {
            lemma_fill_keeps_pending(stream);
            let filled = stream.fill();
            assert(filled.consume(count).pending() =~= filled.pending().skip(count as int));
        }
    }
}

/// The two paths of a read give the same: on a drained reader, a read
/// returns what a read from the connection itself returns, whether the
/// destination is large enough to go past the buffer or not.
pub proof fn lemma_both_paths_read_alike(stream: StreamView, room: nat)
    requires
        stream.drained(),
        room > 0,
    ensures
        stream.read_result(room) == stream.connection.read_result(room),
{
}

/// A read that hands out nothing into a destination with room means the
/// end of the stream: nothing can be read any more, and the connection is
/// closed.
pub proof fn lemma_empty_read_is_the_end(stream: StreamView, room: nat)
    requires
        room > 0,
        stream.read_result(room) == Ok::<nat, IoFailureView>(0),
    ensures
        stream.pending().len() == 0,
        stream.connection.status == crate::connection::Status::Closed,
{
    if stream.drained() {
        assert(stream.pending() =~= stream.connection.pending);
    }
}

/// What happens to a reader in a run: a read into a destination of some
/// size, a delivery to its connection, or the end of the stream.
pub enum Step {
    Read(nat),
    Deliver(Seq<u8>),
    Close,
}

/// The reader after one step of a run. A read that fails changes nothing.
#[verifier::opaque]
pub open spec fn after_step(stream: StreamView, step: Step) -> StreamView {
    match step {
        Step::Read(room) => stream.read(room),
        Step::Deliver(chunk) => StreamView {
            connection: stream.connection.deliver(chunk),
            ..stream
        },
        Step::Close => StreamView { connection: stream.connection.close(), ..stream },
    }
}

/// The bytes that one step of a run hands out: those of a read that
/// succeeds.
#[verifier::opaque]
pub open spec fn handed_by(stream: StreamView, step: Step) -> Seq<u8> {
    match step {
        Step::Read(room) => match stream.read_result(room) {
            Ok(count) => stream.pending().take(count as int),
            Err(_) => Seq::empty(),
        },
        _ => Seq::empty(),
    }
}

/// The bytes that one step of a run brings: those of a delivery to an open
/// connection.
pub open spec fn brought_by(stream: StreamView, step: Step) -> Seq<u8> {
    match step {
        Step::Deliver(chunk) => if stream.connection.status == crate::connection::Status::Open {
            chunk
        } else {
            Seq::empty()
        },
        _ => Seq::empty(),
    }
}

/// The reader after a run of steps.
pub open spec fn after_run(stream: StreamView, steps: Seq<Step>) -> StreamView
    decreases steps.len(),
{
    if steps.len() == 0 {
        stream
    } else {
        after_run(after_step(stream, steps.first()), steps.drop_first())
    }
}

/// The bytes that the reads of a run hand out, one after the other.
pub open spec fn handed_out(stream: StreamView, steps: Seq<Step>) -> Seq<u8>
    decreases steps.len(),
{
    if steps.len() == 0 {
        Seq::empty()
    } else {
        handed_by(stream, steps.first()) + handed_out(
            after_step(stream, steps.first()),
            steps.drop_first(),
        )
    }
}

/// The bytes that the deliveries of a run bring, one after the other.
pub open spec fn brought(stream: StreamView, steps: Seq<Step>) -> Seq<u8>
    decreases steps.len(),
{
    if steps.len() == 0 {
        Seq::empty()
    } else {
        brought_by(stream, steps.first()) + brought(
            after_step(stream, steps.first()),
            steps.drop_first(),
        )
    }
}

/// One step keeps the stream whole: what it hands out and what can be read
/// after it make up what could be read before it and what it brought.
proof fn lemma_step_keeps_the_stream(stream: StreamView, step: Step)
    ensures
        handed_by(stream, step) + after_step(stream, step).pending() == stream.pending()
            + brought_by(stream, step),
{
    reveal(after_step);
    reveal(handed_by);
    match step {
        Step::Read(room) => {
            lemma_read_takes_the_front(stream, room);
            lemma_fill_keeps_pending(stream);
            assert(handed_by(stream, step) + after_step(stream, step).pending()
                =~= stream.pending());
            assert(stream.pending() + brought_by(stream, step) =~= stream.pending());
        },
        Step::Deliver(chunk) => {
            assert(after_step(stream, step).pending() =~= stream.pending() + brought_by(
                stream,
                step,
            ));
            assert(handed_by(stream, step) + after_step(stream, step).pending()
                =~= stream.pending() + brought_by(stream, step));
        },
        Step::Close => {
            assert(handed_by(stream, step) + after_step(stream, step).pending()
                =~= stream.pending());
            assert(stream.pending() + brought_by(stream, step) =~= stream.pending());
        },
    }
}

/// Reads hand the stream out as it came. Over any run of reads, into
/// destinations of any sizes, of deliveries, in pieces of any sizes, and
/// the end of the stream: what the reads have handed out and what can
/// still be read make up what could be read at the start and what was
/// delivered since, in this order. No byte is dropped, none comes twice,
/// and none changes its place.
pub proof fn lemma_reads_hand_out_the_stream(stream: StreamView, steps: Seq<Step>)
    ensures
        handed_out(stream, steps) + after_run(stream, steps).pending() == stream.pending()
            + brought(stream, steps),
    decreases steps.len(),
{
    if steps.len() == 0 {
        assert(handed_out(stream, steps) + stream.pending() =~= stream.pending() + brought(
            stream,
            steps,
        ));
    } else {
        let step = steps.first();
        let next = after_step(stream, step);
        let first = handed_by(stream, step);
        let later = handed_out(next, steps.drop_first());
        let left = after_run(next, steps.drop_first()).pending();
        let more = brought(next, steps.drop_first());
        lemma_step_keeps_the_stream(stream, step);
        lemma_reads_hand_out_the_stream(next, steps.drop_first());
        assert((first + later) + left =~= first + (later + left));
        assert(first + (next.pending() + more) =~= (first + next.pending()) + more);
        assert((stream.pending() + brought_by(stream, step)) + more =~= stream.pending() + (
        brought_by(stream, step) + more));
    }
}

/// Read to the end, the stream has come out whole: where after a run a
/// read into a destination with room hands out nothing, the reads of the
/// run have handed out all that could be read at the start and all that
/// was delivered since.
pub proof fn lemma_reads_to_the_end_hand_out_all(stream: StreamView, steps: Seq<Step>, room: nat)
    requires
        room > 0,
        after_run(stream, steps).read_result(room) == Ok::<nat, IoFailureView>(0),
    ensures
        handed_out(stream, steps) == stream.pending() + brought(stream, steps),
{
    lemma_reads_hand_out_the_stream(stream, steps);
    lemma_empty_read_is_the_end(after_run(stream, steps), room);
    assert(handed_out(stream, steps) + after_run(stream, steps).pending() =~= handed_out(
        stream,
        steps,
    ));
}

} // verus!
