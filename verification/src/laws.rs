//! What holds of the reader and the state machine whatever the stream: the
//! way a stream is cut into deliveries does not matter, a body of the
//! declared length comes back as it was sent, and nothing short of it is
//! ever taken for a body.

use crate::client::{answer, endpoint_of, fresh_reader, get_result, request_text, response_of};
use crate::connection::{ConnectionView, Status};
use crate::error::{HttpResponseErrorView, IoFailureView, ParseFailure};
use crate::exchange::{settle, ExchangeView};
use crate::lines::{lemma_first_newline, lemma_no_newline, LineEvent, LinesView, NEWLINE};
use crate::parser::{classify, LineKind, Machine};
use crate::text::{
    all_digits, decimal, digit_value, is_digit, is_whitespace, occurs_at, starts_with, trim,
    trim_start,
};
use vstd::prelude::*;
use vstd::utf8::*;

verus! {

/// A newline in the front of a stream is its first whatever follows.
proof fn lemma_newline_in_front(front: Seq<u8>, back: Seq<u8>)
    requires
        front.index_of_first(NEWLINE) is Some,
    ensures
        (front + back).index_of_first(NEWLINE) == front.index_of_first(NEWLINE),
        0 <= front.index_of_first(NEWLINE)->0 < front.len(),
{
    front.index_of_first_ensures(NEWLINE);
    let at = front.index_of_first(NEWLINE)->0;
    assert forall|k: int| 0 <= k < at implies (front + back)[k] != NEWLINE by {
        assert((front + back)[k] == front[k]);
    }
    assert((front + back)[at] == front[at]);
    lemma_first_newline(front + back, at);
}

/// Behind a front without newline, the first newline is that of the back.
proof fn lemma_newline_behind(front: Seq<u8>, back: Seq<u8>)
    requires
        front.index_of_first(NEWLINE) is None,
    ensures
        (front + back).index_of_first(NEWLINE) == match back.index_of_first(NEWLINE) {
            Some(at) => Some(front.len() + at),
            None => None,
        },
        back.index_of_first(NEWLINE) matches Some(at) ==> 0 <= at < back.len(),
{
    front.index_of_first_ensures(NEWLINE);
    back.index_of_first_ensures(NEWLINE);
    assert forall|k: int| 0 <= k < front.len() implies front[k] != NEWLINE by {
        if front[k] == NEWLINE {
            assert(front.contains(NEWLINE));
        }
    }
    match back.index_of_first(NEWLINE) {
        Some(at) => {
            assert forall|k: int| 0 <= k < front.len() + at implies (front + back)[k]
                != NEWLINE by {
                if k < front.len() {
                    assert((front + back)[k] == front[k]);
                } else {
                    assert((front + back)[k] == back[k - front.len()]);
                }
            }
            assert((front + back)[front.len() + at] == back[at]);
            lemma_first_newline(front + back, front.len() + at);
        },
        None => {
            assert forall|k: int| 0 <= k < (front + back).len() implies (front + back)[k]
                != NEWLINE by {
                if k < front.len() {
                    assert((front + back)[k] == front[k]);
                } else {
                    assert((front + back)[k] == back[k - front.len()]);
                    if back[k - front.len()] == NEWLINE {
                        assert(back.contains(NEWLINE));
                    }
                }
            }
            lemma_no_newline(front + back);
        },
    }
}

/// To a machine that still reads it makes no difference whether bytes
/// without a newline stand in the partial line already or still wait in
/// front of the pending bytes.
proof fn lemma_partial_or_pending(machine: Machine, reader: LinesView, front: Seq<u8>)
    requires
        !machine.is_terminal(),
        reader.capacity > 0,
        front.index_of_first(NEWLINE) is None,
    ensures
        settle(machine, LinesView { partial: reader.partial + front, ..reader }) == settle(
            machine,
            LinesView { pending: front + reader.pending, ..reader },
        ),
{
    let left = LinesView { partial: reader.partial + front, ..reader };
    let right = LinesView { pending: front + reader.pending, ..reader };
    lemma_newline_behind(front, reader.pending);
    match reader.pending.index_of_first(NEWLINE) {
        Some(at) => {
            assert(left.partial + left.pending.take(at) =~= right.partial + right.pending.take(
                front.len() + at,
            ));
            assert(left.pending.skip(at + 1) =~= right.pending.skip(front.len() + at + 1));
        },
        None => {
            assert(left.partial + left.pending =~= right.partial + right.pending);
        },
    }
    assert(left.event() == right.event());
    assert(left.advance() == right.advance());
}

/// A reader with a buffer of the size `capacity`, on an open connection on
/// which `bytes` have arrived and nothing else has happened.
pub open spec fn arrived(capacity: nat, bytes: Seq<u8>) -> LinesView {
    LinesView {
        partial: Seq::empty(),
        pending: bytes,
        status: Status::Open,
        failure: Seq::empty(),
        sent: Seq::empty(),
        capacity,
    }
}

/// The reader `reader` with `chunk` behind what is pending, and the
/// connection as it stands in `end`.
pub open spec fn followed_by(reader: LinesView, chunk: Seq<u8>, end: LinesView) -> LinesView {
    LinesView {
        pending: reader.pending + chunk,
        status: end.status,
        failure: end.failure,
        ..reader
    }
}

/// Taking lines early changes nothing: whether the machine takes what it
/// can before more arrives on an open connection, or only afterwards, it
/// ends in the same state. The buffered reader has room.
pub proof fn lemma_settle_before_more(
    machine: Machine,
    reader: LinesView,
    chunk: Seq<u8>,
    end: LinesView,
)
    requires
        reader.status == Status::Open,
        reader.capacity > 0,
    ensures
        settle(
            settle(machine, reader).machine,
            followed_by(settle(machine, reader).reader, chunk, end),
        ) == settle(machine, followed_by(reader, chunk, end)),
    decreases reader.pending.len(), reader.partial.len(),
{
    if !machine.is_terminal() {
        match reader.pending.index_of_first(NEWLINE) {
            Some(at) => {
                lemma_newline_in_front(reader.pending, chunk);
                let raw = reader.partial + reader.pending.take(at);
                let later = followed_by(reader, chunk, end);
                assert(later.partial + later.pending.take(at) =~= raw);
                assert(later.pending.skip(at + 1) =~= reader.pending.skip(at + 1) + chunk);
                assert(later.advance() == followed_by(reader.advance(), chunk, end));
                lemma_settle_before_more(machine.step_raw(raw), reader.advance(), chunk, end);
            },
            None => {
                let waiting = reader.advance();
                assert(settle(machine, reader) == ExchangeView { machine, reader: waiting });
                let base = LinesView {
                    pending: chunk,
                    status: end.status,
                    failure: end.failure,
                    ..reader
                };
                lemma_partial_or_pending(machine, base, reader.pending);
                assert(followed_by(waiting, chunk, end) == LinesView {
                    partial: base.partial + reader.pending,
                    ..base
                }) by {
                    assert(waiting.pending + chunk =~= chunk);
                }
                assert(followed_by(reader, chunk, end) == LinesView {
                    pending: reader.pending + base.pending,
                    ..base
                });
            },
        }
    }
}

/// A poll between two deliveries changes nothing: the exchange ends in the
/// same state as if both had arrived before the first poll.
pub proof fn lemma_poll_between_deliveries(machine: Machine, reader: LinesView, chunk: Seq<u8>)
    requires
        reader.status == Status::Open,
        reader.capacity > 0,
    ensures
        settle(settle(machine, reader).machine, settle(machine, reader).reader.deliver(chunk))
            == settle(machine, reader.deliver(chunk)),
{
    lemma_settle_keeps_connection(machine, reader);
    lemma_settle_before_more(machine, reader, chunk, reader);
    assert(settle(machine, reader).reader.deliver(chunk) == followed_by(
        settle(machine, reader).reader,
        chunk,
        reader,
    ));
}

/// A poll before the connection closes changes nothing.
pub proof fn lemma_poll_before_close(machine: Machine, reader: LinesView)
    requires
        reader.status == Status::Open,
        reader.capacity > 0,
    ensures
        settle(settle(machine, reader).machine, settle(machine, reader).reader.close()) == settle(
            machine,
            reader.close(),
        ),
{
    lemma_settle_keeps_connection(machine, reader);
    lemma_settle_before_more(machine, reader, Seq::empty(), reader.close());
    let polled = settle(machine, reader).reader;
    assert(polled.pending + Seq::<u8>::empty() =~= polled.pending);
    assert(reader.pending + Seq::<u8>::empty() =~= reader.pending);
    assert(polled.close() == followed_by(polled, Seq::empty(), reader.close()));
    assert(reader.close() == followed_by(reader, Seq::empty(), reader.close()));
}

/// Taking lines does not touch the connection's state, what was written,
/// or the size of the buffer.
pub proof fn lemma_settle_keeps_connection(machine: Machine, reader: LinesView)
    ensures
        settle(machine, reader).reader.status == reader.status,
        settle(machine, reader).reader.failure == reader.failure,
        settle(machine, reader).reader.sent == reader.sent,
        settle(machine, reader).reader.capacity == reader.capacity,
    decreases reader.pending.len(), reader.partial.len(),
{
    if !machine.is_terminal() {
        reader.pending.index_of_first_ensures(NEWLINE);
        if let LineEvent::Line(raw) = reader.event() {
            lemma_settle_keeps_connection(machine.step_raw(raw), reader.advance());
        }
    }
}

/// The exchange after the stream `chunks` has arrived piece by piece on an
/// open connection, with a poll after each piece.
pub open spec fn fed(exchange: ExchangeView, chunks: Seq<Seq<u8>>) -> ExchangeView
    decreases chunks.len(),
{
    if chunks.len() == 0 {
        settle(exchange.machine, exchange.reader)
    } else {
        let polled = settle(exchange.machine, exchange.reader);
        fed(
            ExchangeView { machine: polled.machine, reader: polled.reader.deliver(chunks.first()) },
            chunks.drop_first(),
        )
    }
}

/// The sizes of the pieces in which a stream arrives do not matter: fed
/// piece by piece with a poll after each, the exchange ends in the state in
/// which it ends when the whole stream is there before the first poll.
pub proof fn lemma_chunking_is_immaterial(exchange: ExchangeView, chunks: Seq<Seq<u8>>)
    requires
        exchange.reader.status == Status::Open,
        exchange.reader.capacity > 0,
    ensures
        fed(exchange, chunks) == settle(
            exchange.machine,
            exchange.reader.deliver(chunks.flatten()),
        ),
    decreases chunks.len(),
{
    let polled = settle(exchange.machine, exchange.reader);
    if chunks.len() == 0 {
        assert(exchange.reader.pending + chunks.flatten() =~= exchange.reader.pending);
    } else {
        let first = chunks.first();
        let rest = chunks.drop_first();
        let next = ExchangeView { machine: polled.machine, reader: polled.reader.deliver(first) };
        lemma_settle_keeps_connection(exchange.machine, exchange.reader);
        lemma_chunking_is_immaterial(next, rest);
        // By induction the rest may arrive at once, behind the first piece.
        let all = rest.flatten();
        lemma_settle_before_more(exchange.machine, exchange.reader, first + all, exchange.reader);
        assert(next.reader.deliver(all) == followed_by(
            polled.reader,
            first + all,
            exchange.reader,
        )) by {
            assert((polled.reader.pending + first) + all =~= polled.reader.pending + (first + all));
        }
        assert(exchange.reader.deliver(chunks.flatten()) == followed_by(
            exchange.reader,
            first + all,
            exchange.reader,
        ));
    }
}

/// The same holds to the end of the stream: once the connection is closed,
/// the verdict is that of the whole stream, however it arrived.
pub proof fn lemma_chunked_stream_has_the_verdict_of_the_whole(
    exchange: ExchangeView,
    chunks: Seq<Seq<u8>>,
)
    requires
        exchange.reader.status == Status::Open,
        exchange.reader.capacity > 0,
    ensures
        settle(fed(exchange, chunks).machine, fed(exchange, chunks).reader.close()) == settle(
            exchange.machine,
            exchange.reader.deliver(chunks.flatten()).close(),
        ),
{
    lemma_chunking_is_immaterial(exchange, chunks);
    let whole = exchange.reader.deliver(chunks.flatten());
    lemma_poll_before_close(exchange.machine, whole);
}

/// The machine sees the stream alone: two readers with the same bytes on
/// connections in the same state lead it to the same end, whatever the
/// sizes of their buffers, as long as both have room, and whatever was
/// written or is the text of an error.
pub proof fn lemma_machine_sees_the_stream_alone(
    machine: Machine,
    one: LinesView,
    other: LinesView,
)
    requires
        one.partial == other.partial,
        one.pending == other.pending,
        one.status == other.status,
        one.capacity > 0,
        other.capacity > 0,
    ensures
        settle(machine, one).machine == settle(machine, other).machine,
        settle(machine, one).reader.partial == settle(machine, other).reader.partial,
        settle(machine, one).reader.pending == settle(machine, other).reader.pending,
    decreases one.pending.len(), one.partial.len(),
{
    if !machine.is_terminal() {
        one.pending.index_of_first_ensures(NEWLINE);
        if let LineEvent::Line(raw) = one.event() {
            lemma_machine_sees_the_stream_alone(
                machine.step_raw(raw),
                one.advance(),
                other.advance(),
            );
        }
    }
}

/// Parsing again gives the same: two exchanges that find the same stream
/// on a closed connection come to the same answer, whatever else differs
/// between them.
pub proof fn lemma_same_stream_same_answer(one: LinesView, other: LinesView)
    requires
        one.partial == other.partial,
        one.pending == other.pending,
        one.status == Status::Closed,
        other.status == Status::Closed,
        one.capacity > 0,
        other.capacity > 0,
    ensures
        answer(settle(Machine::initial(), one)) == answer(settle(Machine::initial(), other)),
{
    lemma_machine_sees_the_stream_alone(Machine::initial(), one, other);
    lemma_closed_stream_is_decided(Machine::initial(), one);
    lemma_closed_stream_is_decided(Machine::initial(), other);
}

/// An exchange on which nothing has happened yet, over a buffered reader
/// of the size `capacity`.
pub open spec fn untouched(capacity: nat) -> ExchangeView {
    ExchangeView { machine: Machine::initial(), reader: arrived(capacity, Seq::empty()) }
}

/// A response is that of its stream, whatever the pieces and whatever the
/// size of the buffer: once a stream has arrived in `chunks` and the
/// connection is closed, the answer is the one that the captured stream
/// gives when it is parsed at once.
pub proof fn lemma_pieces_give_the_response_of_the_stream(capacity: nat, chunks: Seq<Seq<u8>>)
    requires
        capacity > 0,
    ensures
        answer(
            settle(
                fed(untouched(capacity), chunks).machine,
                fed(untouched(capacity), chunks).reader.close(),
            ),
        ) == response_of(chunks.flatten()),
{
    lemma_chunked_stream_has_the_verdict_of_the_whole(untouched(capacity), chunks);
    assert(Seq::<u8>::empty() + chunks.flatten() =~= chunks.flatten());
    let whole = untouched(capacity).reader.deliver(chunks.flatten()).close();
    lemma_same_stream_same_answer(
        whole,
        LinesView { capacity: crate::stream::DEFAULT_HTTP_BUF_SIZE as nat, ..whole },
    );
}

/// Once the stream has ended the exchange is over: the machine is complete
/// or has failed, and nobody waits.
pub proof fn lemma_closed_stream_is_decided(machine: Machine, reader: LinesView)
    requires
        reader.status == Status::Closed,
    ensures
        settle(machine, reader).machine.is_terminal(),
        settle(machine, reader).verdict() is Some,
    decreases reader.pending.len(), reader.partial.len(),
{
    if !machine.is_terminal() {
        reader.pending.index_of_first_ensures(NEWLINE);
        if let LineEvent::Line(raw) = reader.event() {
            lemma_closed_stream_is_decided(machine.step_raw(raw), reader.advance());
        }
    }
}

/// A declared length of zero needs no body: the blank line that ends the
/// headers completes the response, with an empty body.
pub proof fn lemma_zero_length_completes_at_the_blank_line(line: Seq<char>)
    requires
        classify(line) == LineKind::Blank,
    ensures
        (Machine::Header { declared: Some(0) }).step(line) == (Machine::Complete {
            body: Seq::empty(),
        }),
{
}

/// A header line without a colon fails the exchange, and names the reason.
pub proof fn lemma_header_without_colon_fails(declared: Option<i64>, line: Seq<char>)
    requires
        !crate::text::contains(line, "HTTP"@),
        crate::text::trim(line).len() > 0,
        !line.contains(':'),
    ensures
        (Machine::Header { declared }).step(line) == (Machine::Failed {
            reason: ParseFailure::MalformedHeader,
        }),
{
    line.index_of_first_ensures(':');
}

/// A newline cuts valid UTF-8 into valid UTF-8, and the text of the whole
/// is the text before it, a newline, and the text behind it.
proof fn lemma_cut_at_newline(bytes: Seq<u8>, at: int)
    requires
        valid_utf8(bytes),
        0 <= at < bytes.len(),
        bytes[at] == NEWLINE,
    ensures
        valid_utf8(bytes.take(at)),
        valid_utf8(bytes.skip(at + 1)),
        decode_utf8(bytes) == decode_utf8(bytes.take(at)) + seq!['\n'] + decode_utf8(
            bytes.skip(at + 1),
        ),
{
    is_char_boundary_iff_not_is_continuation_byte(bytes, at);
    valid_utf8_split(bytes, at);
    decode_utf8_split(bytes, at);
    let tail = bytes.subrange(at, bytes.len() as int);
    assert(bytes.subrange(0, at) =~= bytes.take(at));
    assert(tail[0] == NEWLINE);
    assert(pop_first_scalar(tail) =~= bytes.skip(at + 1));
    assert(0x0Au8 & 0x7f == 0x0A) by (bit_vector);
    assert(decode_first_scalar(tail) == 0x0A);
    assert(0x0Au32 as char == '\n');
    assert(decode_utf8(tail) == seq![decode_first_scalar(tail) as char] + decode_utf8(
        pop_first_scalar(tail),
    ));
}

/// A machine that is done stays as it is, and the reader with it.
proof fn lemma_settle_done(machine: Machine, reader: LinesView)
    requires
        machine.is_terminal(),
    ensures
        settle(machine, reader) == (ExchangeView { machine, reader }),
{
}

/// A body of the declared length comes back as it was sent. The machine
/// expects as many bytes as `sent` has; `sent` is valid UTF-8, not empty,
/// and does not end in a newline; behind it the stream ends, or goes on
/// with a newline. Then the machine completes, and the text of its body is
/// the text of `sent` behind what it had gathered before.
pub proof fn lemma_body_comes_back_as_sent(
    gathered: Seq<char>,
    sent: Seq<u8>,
    rest: Seq<u8>,
    reader: LinesView,
)
    requires
        reader.capacity > 0,
        reader.partial.len() == 0,
        reader.pending == sent + rest,
        rest.len() == 0 ==> reader.status == Status::Closed,
        rest.len() > 0 ==> rest[0] == NEWLINE,
        valid_utf8(sent),
        sent.len() > 0,
        sent.last() != NEWLINE,
    ensures
        settle(Machine::Body { remaining: sent.len() as int, body: gathered }, reader).machine
            == (Machine::Complete { body: gathered + decode_utf8(sent) }),
    decreases sent.len(),
{
    let machine = Machine::Body { remaining: sent.len() as int, body: gathered };
    sent.index_of_first_ensures(NEWLINE);
    match sent.index_of_first(NEWLINE) {
        Some(at) => {
            lemma_newline_in_front(sent, rest);
            lemma_cut_at_newline(sent, at);
            let raw = sent.take(at);
            let left = sent.skip(at + 1);
            assert(reader.partial + reader.pending.take(at) =~= raw);
            decode_utf8_encode_utf8(raw);
            let next = reader.advance();
            assert(next.pending =~= left + rest);
            assert(left.last() == sent.last());
            let stepped = machine.step_raw(raw);
            assert(stepped == Machine::Body {
                remaining: left.len() as int,
                body: gathered + decode_utf8(raw) + seq!['\n'],
            });
            lemma_body_comes_back_as_sent(
                gathered + decode_utf8(raw) + seq!['\n'],
                left,
                rest,
                next,
            );
            assert(settle(machine, reader) == settle(stepped, next));
            assert(gathered + decode_utf8(raw) + seq!['\n'] + decode_utf8(left) =~= gathered
                + decode_utf8(sent));
        },
        None => {
            lemma_newline_behind(sent, rest);
            decode_utf8_encode_utf8(sent);
            if rest.len() > 0 {
                lemma_first_newline(rest, 0);
                assert(reader.partial + reader.pending.take(sent.len() as int) =~= sent);
            } else {
                rest.index_of_first_ensures(NEWLINE);
                assert(reader.partial + reader.pending =~= sent);
            }
            assert(machine.step_raw(sent) == Machine::Complete {
                body: gathered + decode_utf8(sent),
            });
            lemma_settle_done(machine.step_raw(sent), reader.advance());
            assert(settle(machine, reader) == settle(machine.step_raw(sent), reader.advance()));
        },
    }
}

/// A response comes back with the body that was sent: at the end of headers
/// that declare the length of `sent`, the machine completes with the text
/// of `sent` as its body, under the conditions of the law above.
pub proof fn lemma_declared_length_brings_the_body(sent: Seq<u8>, rest: Seq<u8>, reader: LinesView)
    requires
        reader.capacity > 0,
        reader.partial.len() == 0,
        reader.pending == sent + rest,
        rest.len() == 0 ==> reader.status == Status::Closed,
        rest.len() > 0 ==> rest[0] == NEWLINE,
        valid_utf8(sent),
        0 < sent.len() <= i64::MAX,
        sent.last() != NEWLINE,
    ensures
        settle(Machine::enter_body(Some(sent.len() as i64)), reader).machine
            == (Machine::Complete { body: decode_utf8(sent) }),
{
    lemma_body_comes_back_as_sent(Seq::empty(), sent, rest, reader);
    assert(Seq::<char>::empty() + decode_utf8(sent) =~= decode_utf8(sent));
}


/// A response brings the body that was sent. The stream is a head, a
/// blank line, the body `sent`, and `rest`. The head is made of whole lines
/// that leave the machine reading headers with the length of `sent`
/// declared. The body is valid UTF-8 and does not end in a newline; behind
/// it the stream ends, or goes on with a newline. An empty body needs none
/// of this. Then the exchange completes, and its body is the text of
/// `sent`.
pub proof fn lemma_response_brings_the_body_that_was_sent(
    capacity: nat,
    head: Seq<u8>,
    blank: Seq<u8>,
    sent: Seq<u8>,
    rest: Seq<u8>,
    end: LinesView,
)
    requires
        capacity > 0,
        settle(Machine::initial(), arrived(capacity, head)) == (ExchangeView {
            machine: Machine::Header { declared: Some(sent.len() as i64) },
            reader: arrived(capacity, Seq::empty()),
        }),
        sent.len() <= i64::MAX,
        blank.index_of_first(NEWLINE) is None,
        valid_utf8(blank),
        classify(decode_utf8(blank)) == LineKind::Blank,
        valid_utf8(sent),
        sent.len() > 0 ==> sent.last() != NEWLINE,
        sent.len() > 0 && rest.len() == 0 ==> end.status == Status::Closed,
        sent.len() > 0 && rest.len() > 0 ==> rest[0] == NEWLINE,
    ensures
        settle(
            Machine::initial(),
            followed_by(arrived(capacity, head), blank + seq![NEWLINE] + sent + rest, end),
        ).machine == (Machine::Complete { body: decode_utf8(sent) }),
{
    let tail = blank + seq![NEWLINE] + sent + rest;
    let declared = Machine::Header { declared: Some(sent.len() as i64) };
    lemma_settle_before_more(Machine::initial(), arrived(capacity, head), tail, end);
    let reader = followed_by(arrived(capacity, Seq::empty()), tail, end);
    assert(reader.pending =~= tail);
    // The blank line is the first line of the tail.
    let behind = seq![NEWLINE] + sent + rest;
    assert(tail =~= blank + behind);
    lemma_first_newline(behind, 0);
    lemma_newline_behind(blank, behind);
    assert(reader.partial + reader.pending.take(blank.len() as int) =~= blank);
    let body = reader.advance();
    assert(body.pending =~= sent + rest);
    assert(settle(declared, reader) == settle(declared.step_raw(blank), body));
    assert(declared.step_raw(blank) == Machine::enter_body(Some(sent.len() as i64)));
    if sent.len() > 0 {
        lemma_declared_length_brings_the_body(sent, rest, body);
    } else {
        lemma_settle_done(Machine::enter_body(Some(0)), body);
        assert(decode_utf8(sent) =~= Seq::<char>::empty());
    }
}

/// What the lines left in a stream that has ended take from the declared
/// length: each line its bytes and one more, for the newline, also where
/// the last line has none.
pub open spec fn charge(reader: LinesView) -> int {
    let total = (reader.partial.len() + reader.pending.len()) as int;
    if total == 0 || (reader.pending.len() > 0 && reader.pending.last() == NEWLINE) {
        total
    } else {
        total + 1
    }
}

/// A stream that ends short of the declared length is never taken for a
/// response: where the machine expects more than the lines left in a
/// closed stream can bring, it fails, because the body is incomplete or,
/// before that is seen, because a line is not text.
pub proof fn lemma_short_stream_fails(remaining: int, gathered: Seq<char>, reader: LinesView)
    requires
        reader.capacity > 0,
        reader.status == Status::Closed,
        remaining > charge(reader),
    ensures
        settle(Machine::Body { remaining, body: gathered }, reader).machine matches Machine::Failed {
            reason,
        } && (reason == ParseFailure::IncompleteBody || reason == ParseFailure::InvalidUtf8),
    decreases reader.pending.len(), reader.partial.len(),
{
    let machine = Machine::Body { remaining, body: gathered };
    reader.pending.index_of_first_ensures(NEWLINE);
    match reader.pending.index_of_first(NEWLINE) {
        Some(at) => {
            let raw = reader.partial + reader.pending.take(at);
            let next = reader.advance();
            assert(settle(machine, reader) == settle(machine.step_raw(raw), next));
            if valid_utf8(raw) {
                decode_utf8_encode_utf8(raw);
                if next.pending.len() > 0 {
                    assert(next.pending.last() == reader.pending.last());
                }
                assert(charge(reader) == raw.len() + 1 + charge(next));
                lemma_short_stream_fails(
                    remaining - (raw.len() + 1),
                    gathered + decode_utf8(raw) + seq!['\n'],
                    next,
                );
            } else {
                lemma_settle_done(machine.step_raw(raw), next);
            }
        },
        None => {
            let raw = reader.partial + reader.pending;
            if raw.len() > 0 {
                if reader.pending.len() > 0 && reader.pending.last() == NEWLINE {
                    assert(reader.pending.contains(NEWLINE));
                }
                let next = reader.advance();
                assert(settle(machine, reader) == settle(machine.step_raw(raw), next));
                if valid_utf8(raw) {
                    decode_utf8_encode_utf8(raw);
                    next.pending.index_of_first_ensures(NEWLINE);
                    assert(next.partial + next.pending =~= Seq::<u8>::empty());
                    let stepped = machine.step_raw(raw);
                    assert(stepped is Body);
                    assert(settle(stepped, next).machine == stepped.finish());
                } else {
                    lemma_settle_done(machine.step_raw(raw), next);
                }
            }
        },
    }
}

/// Whether `raw` is one line of text: valid UTF-8 without a newline.
pub open spec fn is_line(raw: Seq<u8>) -> bool {
    valid_utf8(raw) && raw.index_of_first(NEWLINE) is None
}

/// The head of a response as it stands in the stream: a status line, a
/// header that declares the length, and the blank line, each with its
/// newline.
pub open spec fn head_of(status_line: Seq<u8>, length_line: Seq<u8>, blank: Seq<u8>) -> Seq<u8> {
    status_line + seq![NEWLINE] + length_line + seq![NEWLINE] + blank + seq![NEWLINE]
}

/// A machine that still reads takes the first line of the stream.
proof fn lemma_take_first_line(machine: Machine, reader: LinesView, line: Seq<u8>, rest: Seq<u8>)
    requires
        !machine.is_terminal(),
        reader.capacity > 0,
        reader.partial.len() == 0,
        reader.pending == line + seq![NEWLINE] + rest,
        line.index_of_first(NEWLINE) is None,
    ensures
        settle(machine, reader) == settle(
            machine.step_raw(line),
            LinesView { pending: rest, ..reader },
        ),
{
    let behind = seq![NEWLINE] + rest;
    assert(reader.pending =~= line + behind);
    lemma_first_newline(behind, 0);
    lemma_newline_behind(line, behind);
    assert(reader.partial + reader.pending.take(line.len() as int) =~= line);
    assert(reader.pending.skip(line.len() as int + 1) =~= rest);
    assert(reader.partial =~= Seq::empty());
    assert(reader.advance() == LinesView { pending: rest, ..reader });
}

/// The head of a response leads the machine to the body: behind a status
/// line, a header that declares `length` and the blank line, the machine
/// stands where the end of the headers puts it, with the rest of the stream
/// before it.
pub proof fn lemma_head_declares_the_length(
    reader: LinesView,
    status_line: Seq<u8>,
    length_line: Seq<u8>,
    blank: Seq<u8>,
    length: i64,
    rest: Seq<u8>,
)
    requires
        reader.capacity > 0,
        reader.partial.len() == 0,
        reader.pending == head_of(status_line, length_line, blank) + rest,
        is_line(status_line),
        classify(decode_utf8(status_line)) == LineKind::Status,
        is_line(length_line),
        classify(decode_utf8(length_line)) == LineKind::ContentLength(length),
        is_line(blank),
        classify(decode_utf8(blank)) == LineKind::Blank,
    ensures
        settle(Machine::initial(), reader) == settle(
            Machine::enter_body(Some(length)),
            LinesView { pending: rest, ..reader },
        ),
{
    let second = length_line + seq![NEWLINE] + blank + seq![NEWLINE] + rest;
    let third = blank + seq![NEWLINE] + rest;
    assert(reader.pending =~= status_line + seq![NEWLINE] + second);
    lemma_take_first_line(Machine::initial(), reader, status_line, second);
    let after_status = LinesView { pending: second, ..reader };
    assert(second =~= length_line + seq![NEWLINE] + third);
    lemma_take_first_line(Machine::initial(), after_status, length_line, third);
    let after_length = LinesView { pending: third, ..reader };
    let declared = Machine::Header { declared: Some(length) };
    lemma_take_first_line(declared, after_length, blank, rest);
}

/// A request returns the body that was sent. The URL names an endpoint.
/// The connection is closed and holds a response: a status line, a header
/// that declares the length of `body`, the blank line, and `body`, which
/// is valid UTF-8 and does not end in a newline. Then `get` returns the
/// text of `body`.
pub proof fn lemma_get_returns_the_body(
    parsed: Result<(Seq<char>, Option<Seq<char>>, Option<u16>), Seq<char>>,
    connection: ConnectionView,
    status_line: Seq<u8>,
    length_line: Seq<u8>,
    blank: Seq<u8>,
    body: Seq<u8>,
)
    requires
        endpoint_of(parsed) is Ok,
        connection.status == Status::Closed,
        connection.pending == head_of(status_line, length_line, blank) + body,
        is_line(status_line),
        classify(decode_utf8(status_line)) == LineKind::Status,
        is_line(length_line),
        body.len() <= i64::MAX,
        classify(decode_utf8(length_line)) == LineKind::ContentLength(body.len() as i64),
        is_line(blank),
        classify(decode_utf8(blank)) == LineKind::Blank,
        valid_utf8(body),
        body.len() > 0 ==> body.last() != NEWLINE,
    ensures
        get_result(parsed, connection) == Ok::<Seq<char>, HttpResponseErrorView>(
            decode_utf8(body),
        ),
{
    let reader = LinesView {
        sent: connection.sent + encode_utf8(request_text()),
        ..fresh_reader(connection)
    };
    lemma_head_declares_the_length(
        reader,
        status_line,
        length_line,
        blank,
        body.len() as i64,
        body,
    );
    let behind = LinesView { pending: body, ..reader };
    if body.len() > 0 {
        assert(body + Seq::<u8>::empty() =~= body);
        lemma_declared_length_brings_the_body(body, Seq::empty(), behind);
    } else {
        lemma_settle_done(Machine::enter_body(Some(0)), behind);
        assert(decode_utf8(body) =~= Seq::<char>::empty());
    }
}

/// A text that is cut short is incomplete: where the machine expects more
/// than the lines left in a closed stream bring, and what is left is valid
/// UTF-8, the machine fails because the body is incomplete.
pub proof fn lemma_short_text_is_incomplete(remaining: int, gathered: Seq<char>, reader: LinesView)
    requires
        reader.capacity > 0,
        reader.status == Status::Closed,
        remaining > charge(reader),
        valid_utf8(reader.partial + reader.pending),
    ensures
        settle(Machine::Body { remaining, body: gathered }, reader).machine == (Machine::Failed {
            reason: ParseFailure::IncompleteBody,
        }),
    decreases reader.pending.len(), reader.partial.len(),
{
    let machine = Machine::Body { remaining, body: gathered };
    let total = reader.partial + reader.pending;
    lemma_short_stream_fails(remaining, gathered, reader);
    reader.pending.index_of_first_ensures(NEWLINE);
    match reader.pending.index_of_first(NEWLINE) {
        Some(at) => {
            let raw = reader.partial + reader.pending.take(at);
            let next = reader.advance();
            lemma_cut_at_newline(total, reader.partial.len() + at);
            assert(total.take(reader.partial.len() + at) =~= raw);
            assert(total.skip(reader.partial.len() + at + 1) =~= next.partial + next.pending);
            decode_utf8_encode_utf8(raw);
            if next.pending.len() > 0 {
                assert(next.pending.last() == reader.pending.last());
            }
            assert(charge(reader) == raw.len() + 1 + charge(next));
            assert(settle(machine, reader) == settle(machine.step_raw(raw), next));
            lemma_short_text_is_incomplete(
                remaining - (raw.len() + 1),
                gathered + decode_utf8(raw) + seq!['\n'],
                next,
            );
        },
        None => {
            if total.len() > 0 {
                if reader.pending.len() > 0 && reader.pending.last() == NEWLINE {
                    assert(reader.pending.contains(NEWLINE));
                }
                let next = reader.advance();
                assert(settle(machine, reader) == settle(machine.step_raw(total), next));
                decode_utf8_encode_utf8(total);
                next.pending.index_of_first_ensures(NEWLINE);
                assert(next.partial + next.pending =~= Seq::<u8>::empty());
                let stepped = machine.step_raw(total);
                assert(stepped is Body);
                assert(settle(stepped, next).machine == stepped.finish());
            }
        },
    }
}

/// A request never takes a body that was cut short for a response. The URL
/// names an endpoint. The connection is closed and holds a status line, a
/// header that declares `length`, the blank line, and then lines that bring
/// less than `length`. Then `get` fails: it returns no response, and where
/// the lines are valid UTF-8 the error says that the body is incomplete.
pub proof fn lemma_get_fails_on_a_short_body(
    parsed: Result<(Seq<char>, Option<Seq<char>>, Option<u16>), Seq<char>>,
    connection: ConnectionView,
    status_line: Seq<u8>,
    length_line: Seq<u8>,
    blank: Seq<u8>,
    length: i64,
    body: Seq<u8>,
)
    requires
        endpoint_of(parsed) is Ok,
        connection.status == Status::Closed,
        connection.pending == head_of(status_line, length_line, blank) + body,
        is_line(status_line),
        classify(decode_utf8(status_line)) == LineKind::Status,
        is_line(length_line),
        classify(decode_utf8(length_line)) == LineKind::ContentLength(length),
        is_line(blank),
        classify(decode_utf8(blank)) == LineKind::Blank,
        length > charge(LinesView { pending: body, ..fresh_reader(connection) }),
    ensures
        get_result(parsed, connection) is Err,
        valid_utf8(body) ==> get_result(parsed, connection) == Err::<
            Seq<char>,
            HttpResponseErrorView,
        >(HttpResponseErrorView::Io(IoFailureView::Malformed(ParseFailure::IncompleteBody))),
{
    let reader = LinesView {
        sent: connection.sent + encode_utf8(request_text()),
        ..fresh_reader(connection)
    };
    lemma_head_declares_the_length(reader, status_line, length_line, blank, length, body);
    let behind = LinesView { pending: body, ..reader };
    assert(charge(behind) == charge(LinesView { pending: body, ..fresh_reader(connection) }));
    assert(charge(behind) >= 0);
    lemma_short_stream_fails(length as int, Seq::empty(), behind);
    if valid_utf8(body) {
        assert(behind.partial + behind.pending =~= body);
        lemma_short_text_is_incomplete(length as int, Seq::empty(), behind);
    }
}

/// The digit for a number below ten.
pub open spec fn digit(value: nat) -> char {
    if value == 0 {
        '0'
    } else if value == 1 {
        '1'
    } else if value == 2 {
        '2'
    } else if value == 3 {
        '3'
    } else if value == 4 {
        '4'
    } else if value == 5 {
        '5'
    } else if value == 6 {
        '6'
    } else if value == 7 {
        '7'
    } else if value == 8 {
        '8'
    } else {
        '9'
    }
}

/// The number `value` written in base ten, without a sign.
pub open spec fn digits_of(value: nat) -> Seq<char>
    decreases value,
{
    if value < 10 {
        seq![digit(value)]
    } else {
        digits_of(value / 10).push(digit(value % 10))
    }
}

/// A number written in base ten reads as that number.
pub proof fn lemma_digits_read_back(value: nat)
    ensures
        digits_of(value).len() > 0,
        all_digits(digits_of(value)),
        decimal(digits_of(value)) == value,
        forall|i: int|
            0 <= i < digits_of(value).len() ==> '0' <= #[trigger] digits_of(value)[i] <= '9',
    decreases value,
{
    if value < 10 {
        let text = seq![digit(value)];
        assert(text.drop_last() =~= Seq::<char>::empty());
        assert(decimal(text.drop_last()) == 0);
        assert(digit_value(text.last()) == value);
    } else {
        lemma_digits_read_back(value / 10);
        let front = digits_of(value / 10);
        let text = front.push(digit(value % 10));
        assert(text.drop_last() =~= front);
        assert(digit_value(text.last()) == value % 10);
        assert forall|i: int| 0 <= i < text.len() implies is_digit(#[trigger] text[i]) && '0'
            <= text[i] <= '9' by {
            if i < front.len() {
                assert(text[i] == front[i]);
            }
        }
    }
}

/// The header line that declares the length `length`, as text.
pub open spec fn length_line_text(length: nat) -> Seq<char> {
    "Content-Length: "@ + digits_of(length)
}

/// A text that begins and ends with something other than whitespace is
/// its own trimmed form.
proof fn lemma_trim_keeps(text: Seq<char>)
    requires
        text.len() > 0,
        !is_whitespace(text.first()),
        !is_whitespace(text.last()),
    ensures
        trim(text) == text,
{
}

/// Read as a header line, `Content-Length: ` and a number declare that
/// number as the length.
pub proof fn lemma_length_line_declares(length: nat)
    requires
        length <= i64::MAX,
    ensures
        classify(length_line_text(length)) == LineKind::ContentLength(length as i64),
{
    let prefix = "Content-Length: "@;
    let digits = digits_of(length);
    let line = length_line_text(length);
    reveal_strlit("Content-Length: ");
    reveal_strlit("Content-Length");
    reveal_strlit("HTTP");
    lemma_digits_read_back(length);
    assert(prefix.len() == 16);
    assert forall|i: int| 0 <= i < line.len() implies #[trigger] line[i] != 'H' && (i < 14
        ==> line[i] != ':') by {
        if i < 16 {
            assert(line[i] == prefix[i]);
        } else {
            assert(line[i] == digits[i - 16]);
            assert(is_digit(digits[i - 16]));
        }
    }
    // No status line.
    assert forall|at: int| !occurs_at(line, "HTTP"@, at) by {
        if occurs_at(line, "HTTP"@, at) {
            assert(line[at + 0] == "HTTP"@[0]);
        }
    }
    // Not blank.
    assert(line[0] == prefix[0]);
    assert(line.last() == digits.last());
    assert(is_digit(digits[digits.len() - 1]));
    lemma_trim_keeps(line);
    // The colon.
    assert(line[14] == prefix[14]);
    line.index_of_first_ensures(':');
    assert(line.contains(':'));
    assert(line.index_of_first(':') == Some(14int));
    // The name.
    let name = line.take(14);
    assert(name =~= "Content-Length"@) by {
        assert forall|k: int| 0 <= k < 14 implies name[k] == "Content-Length"@[k] by {
            assert(name[k] == prefix[k]);
        }
    }
    lemma_trim_keeps(name);
    assert(starts_with(trim(name), "Content-Length"@));
    // The value.
    let value = line.skip(15);
    assert(value.first() == prefix[15]);
    assert(value.drop_first() =~= digits);
    assert(is_digit(digits[0]));
    lemma_trim_keeps(digits);
    assert(trim_start(value) == trim_start(digits));
    assert(trim(value) == digits);
    assert(digits[0] != '-' && digits[0] != '+');
}

/// The header line that declares the length `length`, as it stands in the
/// stream.
pub open spec fn length_line(length: nat) -> Seq<u8> {
    encode_utf8(length_line_text(length))
}

/// The header line that declares a length is one line of text.
pub proof fn lemma_length_line_is_a_line(length: nat)
    ensures
        is_line(length_line(length)),
        decode_utf8(length_line(length)) == length_line_text(length),
{
    let text = length_line_text(length);
    let raw = length_line(length);
    reveal_strlit("Content-Length: ");
    lemma_digits_read_back(length);
    encode_utf8_valid_utf8(text);
    encode_utf8_decode_utf8(text);
    assert forall|i: int| 0 <= i < text.len() implies '\0' <= #[trigger] text[i] <= '\u{7f}'
        && text[i] != '\n' by {
        if i < 16 {
            assert(text[i] == "Content-Length: "@[i]);
            assert('\0' <= text[i] <= '\u{7f}');
            assert(text[i] != '\n');
        } else {
            assert(text[i] == digits_of(length)[i - 16]);
            assert(is_digit(digits_of(length)[i - 16]));
            assert(text[i] != '\n');
            assert('\0' <= text[i] <= '\u{7f}');
        }
    }
    assert(is_ascii_chars(text));
    is_ascii_chars_encode_utf8(text);
    assert forall|k: int| 0 <= k < raw.len() implies raw[k] != NEWLINE by {
        assert(raw[k] == text[k] as u8);
    }
    lemma_no_newline(raw);
}

/// A line that begins with `HTTP` is a status line.
pub proof fn lemma_status_line_is_known(line: Seq<char>)
    requires
        starts_with(line, "HTTP"@),
    ensures
        classify(line) == LineKind::Status,
{
    assert(occurs_at(line, "HTTP"@, 0));
}

/// The empty line is the blank line.
pub proof fn lemma_empty_line_is_blank()
    ensures
        is_line(Seq::<u8>::empty()),
        classify(decode_utf8(Seq::<u8>::empty())) == LineKind::Blank,
{
    let line = decode_utf8(Seq::<u8>::empty());
    reveal_strlit("HTTP");
    assert(line.len() == 0);
    assert forall|at: int| !occurs_at(line, "HTTP"@, at) by {}
    lemma_no_newline(Seq::<u8>::empty());
}

/// A connection after the peer sent `chunks`, one after the other.
pub open spec fn delivered(connection: ConnectionView, chunks: Seq<Seq<u8>>) -> ConnectionView
    decreases chunks.len(),
{
    if chunks.len() == 0 {
        connection
    } else {
        delivered(connection.deliver(chunks.first()), chunks.drop_first())
    }
}

/// Deliveries add up: a stream that arrives in pieces stands on the
/// connection as if it had arrived at once.
pub proof fn lemma_deliveries_add_up(connection: ConnectionView, chunks: Seq<Seq<u8>>)
    ensures
        delivered(connection, chunks) == connection.deliver(chunks.flatten()),
    decreases chunks.len(),
{
    if chunks.len() == 0 {
        assert(connection.pending + chunks.flatten() =~= connection.pending);
    } else {
        lemma_deliveries_add_up(connection.deliver(chunks.first()), chunks.drop_first());
        assert((connection.pending + chunks.first()) + chunks.drop_first().flatten()
            =~= connection.pending + chunks.flatten());
    }
}

/// A request returns the body that the server sent, however the response
/// arrived. The URL names an endpoint. On a connection that held nothing
/// the response arrives in pieces of any sizes, and then the connection is
/// closed. The response is a status line, the header `Content-Length: `
/// with the length of the body in base ten, an empty line, and the body,
/// which is valid UTF-8 and does not end in a newline. Then `get` returns
/// the text of the body, whatever the pieces.
pub proof fn lemma_get_returns_the_body_of_a_response(
    parsed: Result<(Seq<char>, Option<Seq<char>>, Option<u16>), Seq<char>>,
    start: ConnectionView,
    chunks: Seq<Seq<u8>>,
    status_line: Seq<u8>,
    body: Seq<u8>,
)
    requires
        endpoint_of(parsed) is Ok,
        start.status == Status::Open,
        start.pending.len() == 0,
        is_line(status_line),
        classify(decode_utf8(status_line)) == LineKind::Status,
        valid_utf8(body),
        body.len() <= i64::MAX,
        body.len() > 0 ==> body.last() != NEWLINE,
        chunks.flatten() == status_line + seq![NEWLINE] + length_line(body.len()) + seq![
            NEWLINE,
            NEWLINE,
        ] + body,
    ensures
        get_result(parsed, delivered(start, chunks).close()) == Ok::<
            Seq<char>,
            HttpResponseErrorView,
        >(decode_utf8(body)),
{
    let blank = Seq::<u8>::empty();
    let connection = delivered(start, chunks).close();
    lemma_deliveries_add_up(start, chunks);
    lemma_length_line_is_a_line(body.len());
    lemma_length_line_declares(body.len());
    lemma_empty_line_is_blank();
    assert(connection.pending =~= head_of(status_line, length_line(body.len()), blank) + body);
    lemma_get_returns_the_body(
        parsed,
        connection,
        status_line,
        length_line(body.len()),
        blank,
        body,
    );
}

/// What the lines of a body take from the declared length when the stream
/// ends behind them: each line its bytes and one more for the newline,
/// also where the last line has none.
pub open spec fn body_cost(body: Seq<u8>) -> int {
    if body.len() == 0 || body.last() == NEWLINE {
        body.len() as int
    } else {
        body.len() as int + 1
    }
}

/// A request never takes a response that was cut short, however it
/// arrived. The URL names an endpoint. On a connection that held nothing
/// the stream arrives in pieces of any sizes, and then the connection is
/// closed. The stream is a status line, the header `Content-Length: ` with
/// a length in base ten, an empty line, and a body whose lines bring less
/// than that length. Then `get` returns no response, and where the body is
/// valid UTF-8 the error says that the body is incomplete.
pub proof fn lemma_get_fails_on_a_short_response(
    parsed: Result<(Seq<char>, Option<Seq<char>>, Option<u16>), Seq<char>>,
    start: ConnectionView,
    chunks: Seq<Seq<u8>>,
    status_line: Seq<u8>,
    length: nat,
    body: Seq<u8>,
)
    requires
        endpoint_of(parsed) is Ok,
        start.status == Status::Open,
        start.pending.len() == 0,
        is_line(status_line),
        classify(decode_utf8(status_line)) == LineKind::Status,
        length <= i64::MAX,
        length > body_cost(body),
        chunks.flatten() == status_line + seq![NEWLINE] + length_line(length) + seq![
            NEWLINE,
            NEWLINE,
        ] + body,
    ensures
        get_result(parsed, delivered(start, chunks).close()) is Err,
        valid_utf8(body) ==> get_result(parsed, delivered(start, chunks).close()) == Err::<
            Seq<char>,
            HttpResponseErrorView,
        >(HttpResponseErrorView::Io(IoFailureView::Malformed(ParseFailure::IncompleteBody))),
{
    let blank = Seq::<u8>::empty();
    let connection = delivered(start, chunks).close();
    lemma_deliveries_add_up(start, chunks);
    lemma_length_line_is_a_line(length);
    lemma_length_line_declares(length);
    lemma_empty_line_is_blank();
    assert(connection.pending =~= head_of(status_line, length_line(length), blank) + body);
    assert(charge(LinesView { pending: body, ..fresh_reader(connection) }) == body_cost(body));
    lemma_get_fails_on_a_short_body(
        parsed,
        connection,
        status_line,
        length_line(length),
        blank,
        length as i64,
        body,
    );
}

} // verus!
