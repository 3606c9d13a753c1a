//! Replies: which call a message answers, and how a wait for the reply to a
//! call goes.

use vstd::prelude::*;
use crate::connection::{short_read_error, Error};
use crate::decoder::{decode_u32, spec_decode_u32};
use crate::frame::{spec_frame, Frame};
use crate::message::{HeaderFieldName, Message, MessageModel};
use crate::types::{lemma_container_models, models, Value, ValueModel};

verus! {

/// Which call a message replies to.
#[derive(Clone, Copy, PartialEq, Eq, Debug, Structural)]
pub enum ReplyTo {
    /// The message is no reply: it has no reply serial, or none in a variant.
    Nothing,
    /// The message replies to the call with this serial.
    Serial(u32),
    /// The reply serial is not an unsigned number of 32 bits.
    Malformed,
}

/// Which call the message replies to.
pub open spec fn spec_reply_to(msg: MessageModel) -> ReplyTo {
    if msg.headers.contains_key(HeaderFieldName::ReplySerial.code()) {
        match msg.headers[HeaderFieldName::ReplySerial.code()] {
            ValueModel::Variant(inner, _) => match *inner {
                ValueModel::Basic(b) => match spec_decode_u32(b) {
                    Some(serial) => ReplyTo::Serial(serial),
                    None => ReplyTo::Malformed,
                },
                _ => ReplyTo::Malformed,
            },
            _ => ReplyTo::Nothing,
        }
    } else {
        ReplyTo::Nothing
    }
}

/// Which call the message replies to.
pub fn reply_to(msg: &Message) -> (r: ReplyTo)
    ensures
        r == spec_reply_to(msg@),
{
    broadcast use vstd::std_specs::hash::group_hash_axioms;

    let code: u8 = HeaderFieldName::ReplySerial.code();
    let field: &Value = match msg.headers.get(&code) {
        Some(field) => field,
        None => {
            return ReplyTo::Nothing;
        },
    };
    proof {
        lemma_container_models(*field);
    }
    match field {
        Value::Variant(v) => {
            let inner: &Value = &*v.object;
            proof {
                lemma_container_models(*inner);
            }
            match inner {
                Value::BasicValue(b) => match decode_u32(b) {
                    Some(serial) => ReplyTo::Serial(serial),
                    None => ReplyTo::Malformed,
                },
                _ => ReplyTo::Malformed,
            }
        },
        _ => ReplyTo::Nothing,
    }
}

/// What one attempt to get the reply to a call comes to.
pub enum Poll {
    /// No message could be had.
    Failed(Error),
    /// The reply came, with this body.
    Reply(Seq<ValueModel>),
    /// Another message came.
    Skipped(MessageModel),
}

/// The outcome of an attempt, and what it leaves queued and pending.
pub struct Polled {
    pub outcome: Poll,
    pub queue: Seq<MessageModel>,
    pub pending: Seq<u8>,
}

/// The next message: the oldest one queued or, with none queued, the frame
/// at the start of the pending bytes; then what is left queued and pending.
pub open spec fn spec_next(
    queue: Seq<MessageModel>,
    pending: Seq<u8>,
    fault: Option<std::io::ErrorKind>,
) -> (Result<MessageModel, Error>, Seq<MessageModel>, Seq<u8>) {
    if queue.len() > 0 {
        (Ok(queue[0]), queue.skip(1), pending)
    } else {
        match spec_frame(pending) {
            Frame::Short => (Err(short_read_error(fault)), queue, Seq::empty()),
            Frame::Bad(e, n) => (Err(e), queue, pending.skip(n)),
            Frame::Good(m, n) => (Ok(m), queue, pending.skip(n)),
        }
    }
}

/// One attempt to get the reply to the call with the given serial: the next
/// message is the reply, or is skipped, or cannot be had or understood.
pub open spec fn spec_poll(
    queue: Seq<MessageModel>,
    pending: Seq<u8>,
    fault: Option<std::io::ErrorKind>,
    serial: u32,
) -> Polled {
    let (next, queue, pending) = spec_next(queue, pending, fault);
    let outcome = match next {
        Err(e) => Poll::Failed(e),
        Ok(msg) => match spec_reply_to(msg) {
            ReplyTo::Malformed => Poll::Failed(Error::ProtocolViolation),
            ReplyTo::Serial(s) => if s == serial {
                Poll::Reply(msg.body)
            } else {
                Poll::Skipped(msg)
            },
            ReplyTo::Nothing => Poll::Skipped(msg),
        },
    };
    Polled { outcome, queue, pending }
}

/// How a wait for a reply ends, and what it leaves queued and pending.
pub struct Waited {
    pub result: Result<Seq<ValueModel>, Error>,
    pub queue: Seq<MessageModel>,
    pub pending: Seq<u8>,
}

/// Waiting for the reply to the call with the given serial: attempts are
/// made until the reply comes or no message can be had.  The messages skipped
/// on the way, oldest first, then stand at the front of the queue.
pub open spec fn spec_wait(
    queue: Seq<MessageModel>,
    pending: Seq<u8>,
    fault: Option<std::io::ErrorKind>,
    serial: u32,
    skipped: Seq<MessageModel>,
) -> Waited
    decreases queue.len() + pending.len(),
{
    let polled = spec_poll(queue, pending, fault, serial);
    match polled.outcome {
        Poll::Failed(e) => Waited {
            result: Err(e),
            queue: skipped + polled.queue,
            pending: polled.pending,
        },
        Poll::Reply(body) => Waited {
            result: Ok(body),
            queue: skipped + polled.queue,
            pending: polled.pending,
        },
        Poll::Skipped(msg) => spec_wait(
            polled.queue,
            polled.pending,
            fault,
            serial,
            skipped.push(msg),
        ),
    }
}

/// Whether a wait that ends as `w` says gave the result `r` and left `queue`
/// queued and `pending` pending.
pub open spec fn waited(
    w: Waited,
    r: Result<Vec<Value>, Error>,
    queue: Seq<MessageModel>,
    pending: Seq<u8>,
) -> bool {
    &&& queue == w.queue
    &&& pending == w.pending
    &&& match w.result {
        Ok(body) => r matches Ok(values) && models(values@) == body,
        Err(e) => r == Err::<Vec<Value>, Error>(e),
    }
}

/// The first `n` messages that reading hands out, and what is left queued
/// and pending after them; nothing if one of the reads fails.
pub open spec fn spec_reads(
    queue: Seq<MessageModel>,
    pending: Seq<u8>,
    fault: Option<std::io::ErrorKind>,
    n: nat,
) -> Option<(Seq<MessageModel>, Seq<MessageModel>, Seq<u8>)>
    decreases n,
{
    if n == 0 {
        Some((Seq::empty(), queue, pending))
    } else {
        match spec_next(queue, pending, fault) {
            (Err(_), _, _) => None,
            (Ok(first), queue, pending) => match spec_reads(
                queue,
                pending,
                fault,
                (n - 1) as nat,
            ) {
                None => None,
                Some((others, queue, pending)) => Some((seq![first] + others, queue, pending)),
            },
        }
    }
}

/// Whether a wait for the reply to the call with the given serial passes
/// the message by: it is no reply, or the reply to another call.
pub open spec fn passed_by(msg: MessageModel, serial: u32) -> bool {
    match spec_reply_to(msg) {
        ReplyTo::Nothing => true,
        ReplyTo::Serial(s) => s != serial,
        ReplyTo::Malformed => false,
    }
}

/// Reading `n` messages gives `n` messages.
proof fn lemma_reads_length(
    queue: Seq<MessageModel>,
    pending: Seq<u8>,
    fault: Option<std::io::ErrorKind>,
    n: nat,
)
    ensures
        spec_reads(queue, pending, fault, n) matches Some((msgs, _, _)) ==> msgs.len() == n,
    decreases n,
{
    if n > 0 {
        let (_, queue1, pending1) = spec_next(queue, pending, fault);
        lemma_reads_length(queue1, pending1, fault, (n - 1) as nat);
    }
}

/// A wait that starts with messages already skipped, and finds `n` messages
/// to pass by and then the reply, ends with the body of the reply; what was
/// skipped and passed by stands at the front of the queue.
proof fn lemma_wait_from(
    queue: Seq<MessageModel>,
    pending: Seq<u8>,
    fault: Option<std::io::ErrorKind>,
    serial: u32,
    skipped: Seq<MessageModel>,
    n: nat,
)
    requires
        spec_reads(queue, pending, fault, n + 1) is Some,
        forall|i: int|
            0 <= i < n ==> passed_by(
                #[trigger] spec_reads(queue, pending, fault, n + 1)->Some_0.0[i],
                serial,
            ),
        spec_reply_to(spec_reads(queue, pending, fault, n + 1)->Some_0.0[n as int])
            == ReplyTo::Serial(serial),
    ensures
        ({
            let (msgs, rest, left) = spec_reads(queue, pending, fault, n + 1)->Some_0;
            &&& msgs.len() == n + 1
            &&& spec_wait(queue, pending, fault, serial, skipped) == (Waited {
                result: Ok(msgs[n as int].body),
                queue: skipped + msgs.take(n as int) + rest,
                pending: left,
            })
        }),
    decreases n,
{
    let (msgs, rest, left) = spec_reads(queue, pending, fault, n + 1)->Some_0;
    let (next, queue1, pending1) = spec_next(queue, pending, fault);
    let first = next->Ok_0;
    let others = spec_reads(queue1, pending1, fault, n)->Some_0.0;
    lemma_reads_length(queue1, pending1, fault, n);
    assert(msgs == seq![first] + others);
    assert(seq![first].len() == 1);
    assert(forall|i: int| 0 <= i < n ==> others[i] == msgs[i + 1]);
    if n == 0 {
        assert(spec_reads(queue1, pending1, fault, 0) == Some(
            (Seq::<MessageModel>::empty(), queue1, pending1),
        ));
        assert(msgs[0] == first);
        assert(skipped + msgs.take(0) + rest =~= skipped + queue1);
    } else {
        assert(msgs[0] == first);
        assert(passed_by(msgs[0], serial));
        assert forall|i: int| 0 <= i < n - 1 implies passed_by(
            #[trigger] spec_reads(queue1, pending1, fault, n as nat)->Some_0.0[i],
            serial,
        ) by {
            assert(others[i] == msgs[i + 1]);
            assert(passed_by(msgs[i + 1], serial));
        }
        assert(others[n - 1] == msgs[n as int]);
        lemma_wait_from(queue1, pending1, fault, serial, skipped.push(first), (n - 1) as nat);
        assert(skipped.push(first) + others.take(n - 1) + rest =~= skipped + msgs.take(n as int)
            + rest);
    }
}

/// Messages at the front of the queue are handed out first, in their order.
proof fn lemma_reads_front(
    front: Seq<MessageModel>,
    queue: Seq<MessageModel>,
    pending: Seq<u8>,
    fault: Option<std::io::ErrorKind>,
)
    ensures
        spec_reads(front + queue, pending, fault, front.len()) == Some((front, queue, pending)),
    decreases front.len(),
{
    if front.len() == 0 {
        assert(front + queue =~= queue);
        assert(front =~= Seq::empty());
    } else {
        let all = front + queue;
        assert(all[0] == front[0]);
        assert(all.skip(1) =~= front.skip(1) + queue);
        lemma_reads_front(front.skip(1), queue, pending, fault);
        assert(seq![front[0]] + front.skip(1) =~= front);
    }
}

/// When the messages that reading would hand out are `n` messages that are
/// not the reply to the call `serial`, and then its reply, a wait for that
/// reply returns the body of exactly that message.  Afterwards the `n`
/// messages are handed out first, in the order in which they came, before
/// anything that came later.
pub proof fn lemma_reply_after_others(
    queue: Seq<MessageModel>,
    pending: Seq<u8>,
    fault: Option<std::io::ErrorKind>,
    serial: u32,
    n: nat,
)
    requires
        spec_reads(queue, pending, fault, n + 1) is Some,
        forall|i: int|
            0 <= i < n ==> passed_by(
                #[trigger] spec_reads(queue, pending, fault, n + 1)->Some_0.0[i],
                serial,
            ),
        spec_reply_to(spec_reads(queue, pending, fault, n + 1)->Some_0.0[n as int])
            == ReplyTo::Serial(serial),
    ensures
        ({
            let (msgs, rest, left) = spec_reads(queue, pending, fault, n + 1)->Some_0;
            let end = spec_wait(queue, pending, fault, serial, Seq::empty());
            &&& end.result == Ok::<Seq<ValueModel>, Error>(msgs[n as int].body)
            &&& end.queue == msgs.take(n as int) + rest
            &&& end.pending == left
            &&& spec_reads(end.queue, end.pending, fault, n) == Some(
                (msgs.take(n as int), rest, left),
            )
        }),
{
    let (msgs, rest, left) = spec_reads(queue, pending, fault, n + 1)->Some_0;
    lemma_wait_from(queue, pending, fault, serial, Seq::empty(), n);
    assert(Seq::<MessageModel>::empty() + msgs.take(n as int) + rest =~= msgs.take(n as int)
        + rest);
    lemma_reads_front(msgs.take(n as int), rest, left, fault);
}

} // verus!
