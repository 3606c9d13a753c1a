//! Connections to a message bus: the authentication handshake, sending,
//! reading and the matching of replies to calls.

use vstd::prelude::*;
use vstd::string::{StrSliceExecFns, StringSliceAdditionalSpecFns};
use crate::address::{spec_server_address, ServerAddress, ServerAddressError};
use crate::auth::{
    auth_anonymous_command, auth_external_command, begin_command, spec_auth_anonymous,
    spec_auth_external,
};
use crate::demarshal::{le_u32, DemarshalError};
use crate::frame::{bytes_missing, read_frame, spec_bytes_missing};
use crate::handshake::{
    bus_name, connected, hello_call, named, session_address, spec_auth, spec_auth_command,
    spec_connect, spec_connect_address, spec_default_system_address, spec_finish_auth,
    spec_hello_call, spec_write, system_address,
};
use crate::marshal::{encode_u32, le_bytes_u32};
use crate::message::{
    get_length, message_models, set_length, Message, MessageBuf, MessageModel,
    MESSAGE_TYPE_METHOD_CALL,
};
use crate::reply::{
    reply_to, spec_next, spec_poll, spec_wait, waited, Poll, Polled, ReplyTo,
};
use crate::socket::{Socket, SocketKind};
use crate::types::{models, Value};

verus! {

/// What can go wrong on a connection.
#[derive(Clone, Copy, PartialEq, Eq, Debug)]
pub enum Error {
    /// The stream ended before everything asked for had arrived.
    Disconnected,
    /// The stream failed.
    IOError(std::io::ErrorKind),
    /// A frame could not be decoded.
    DemarshalError(DemarshalError),
    /// The bus address was not accepted.
    AddressError(ServerAddressError),
    /// An outgoing message is malformed, or a handshake reply has the wrong shape.
    BadData,
    /// The peer rejected the authentication.
    AuthFailed,
    /// The environment does not give the address of the bus.
    NoEnvironment,
    /// The peer sent something that no well-behaved peer sends.
    ProtocolViolation,
}

impl From<std::io::ErrorKind> for Error {
    fn from(kind: std::io::ErrorKind) -> (e: Error) {
        Error::IOError(kind)
    }
}

impl vstd::std_specs::convert::FromSpecImpl<std::io::ErrorKind> for Error {
    open spec fn obeys_from_spec() -> bool {
        true
    }

    open spec fn from_spec(kind: std::io::ErrorKind) -> Error {
        Error::IOError(kind)
    }
}

impl From<DemarshalError> for Error {
    fn from(cause: DemarshalError) -> (e: Error) {
        Error::DemarshalError(cause)
    }
}

impl vstd::std_specs::convert::FromSpecImpl<DemarshalError> for Error {
    open spec fn obeys_from_spec() -> bool {
        true
    }

    open spec fn from_spec(cause: DemarshalError) -> Error {
        Error::DemarshalError(cause)
    }
}

impl From<ServerAddressError> for Error {
    fn from(cause: ServerAddressError) -> (e: Error) {
        Error::AddressError(cause)
    }
}

impl vstd::std_specs::convert::FromSpecImpl<ServerAddressError> for Error {
    open spec fn obeys_from_spec() -> bool {
        true
    }

    open spec fn from_spec(cause: ServerAddressError) -> Error {
        Error::AddressError(cause)
    }
}

/// The error of a read that found the stream exhausted: the failure of the
/// stream if there was one, a plain disconnect otherwise.
pub open spec fn short_read_error(fault: Option<std::io::ErrorKind>) -> Error {
    match fault {
        Some(kind) => Error::IOError(kind),
        None => Error::Disconnected,
    }
}

/// Reads exactly `len` bytes into `buf`, whose earlier content is dropped.
///
/// If fewer than `len` bytes are pending, everything pending is consumed and
/// the read fails: a short read is never handed out as a result.
pub fn read_exactly(sock: &mut Socket, buf: &mut Vec<u8>, len: usize) -> (r: Result<(), Error>)
    ensures
        final(sock).written() == old(sock).written(),
        final(sock).fault() == old(sock).fault(),
        final(sock).kind() == old(sock).kind(),
        r is Ok <==> old(sock).pending().len() >= len,
        r is Ok ==> final(buf)@ == old(sock).pending().take(len as int) && final(sock).pending()
            == old(sock).pending().skip(len as int),
        r is Err ==> r == Err::<(), Error>(short_read_error(old(sock).fault())) && final(buf)@
            == old(sock).pending() && final(sock).pending() == Seq::<u8>::empty(),
{
    buf.clear();
    match sock.read_upto(buf, len) {
        Err(kind) => Err(Error::from(kind)),
        Ok(n) => if n != len {
            Err(Error::Disconnected)
        } else {
            Ok(())
        },
    }
}

/// Whether the byte at `i` is the line feed of a `"\r\n"`.
pub open spec fn ends_line(bytes: Seq<u8>, i: int) -> bool {
    1 <= i < bytes.len() && bytes[i - 1] == 13 && bytes[i] == 10
}

/// Each byte as the character with that code.
pub open spec fn latin1(bytes: Seq<u8>) -> Seq<char> {
    Seq::new(bytes.len(), |i: int| bytes[i] as char)
}

/// `String::push`: appends one character.
#[verifier::external_body]
fn string_push(s: &mut String, c: char)
    ensures
        final(s)@ == old(s)@.push(c),
{
    s.push(c)
}

/// The length of the line that ends at the first `"\r\n"` whose line feed
/// stands at `i` or later, the two bytes included.
pub open spec fn line_length_from(bytes: Seq<u8>, i: int) -> Option<int>
    decreases bytes.len() - i,
{
    if i < 0 || i >= bytes.len() {
        None
    } else if ends_line(bytes, i) {
        Some(i + 1)
    } else {
        line_length_from(bytes, i + 1)
    }
}

/// The length of the first line of `bytes`, its `"\r\n"` included, if the
/// bytes hold a whole line.
pub open spec fn line_length(bytes: Seq<u8>) -> Option<int> {
    line_length_from(bytes, 0)
}

/// The first line ends at the first `"\r\n"`, and there is a first line
/// exactly if there is a `"\r\n"`.
pub proof fn lemma_line_length(bytes: Seq<u8>, i: int)
    requires
        0 <= i,
    ensures
        match line_length_from(bytes, i) {
            Some(n) => i < n <= bytes.len() && ends_line(bytes, n - 1) && forall|j: int|
                i <= j < n - 1 ==> !ends_line(bytes, j),
            None => forall|j: int| i <= j ==> !ends_line(bytes, j),
        },
    decreases bytes.len() - i,
{
    if i < bytes.len() && !ends_line(bytes, i) {
        lemma_line_length(bytes, i + 1);
    }
}

/// Reads one line, byte by byte, up to and including the first `"\r\n"`.
/// Each byte becomes the character with its code.
///
/// If the stream gives out before a line has ended, everything pending is
/// consumed and the read fails: with the failure of the stream if it has
/// failed, as a disconnect if it has ended.  Part of a line is never handed
/// out as a result.
pub fn read_line(sock: &mut Socket) -> (r: Result<String, Error>)
    ensures
        final(sock).written() == old(sock).written(),
        final(sock).fault() == old(sock).fault(),
        final(sock).kind() == old(sock).kind(),
        match line_length(old(sock).pending()) {
            Some(n) => {
                &&& r matches Ok(line)
                &&& line@ == latin1(old(sock).pending().take(n))
                &&& final(sock).pending() == old(sock).pending().skip(n)
            },
            None => {
                &&& r == Err::<String, Error>(short_read_error(old(sock).fault()))
                &&& final(sock).pending() == Seq::<u8>::empty()
            },
        },
{
    let ghost all = sock.pending();
    proof {
        sock.lemma_pending_bounded();
    }
    let mut line = String::new();
    let mut last: u8 = 0;
    let mut n: usize = 0;
    loop
        invariant
            sock.written() == old(sock).written(),
            sock.fault() == old(sock).fault(),
            sock.kind() == old(sock).kind(),
            all == old(sock).pending(),
            n <= all.len() <= usize::MAX,
            sock.pending() == all.skip(n as int),
            line@ == latin1(all.take(n as int)),
            n > 0 ==> last == all[n - 1],
            line_length(all) == line_length_from(all, n as int),
        decreases all.len() - n,
    {
        let b: u8 = match sock.read_byte() {
            Ok(Some(b)) => b,
            Ok(None) => {
                return Err(Error::Disconnected);
            },
            Err(kind) => {
                return Err(Error::from(kind));
            },
        };
        string_push(&mut line, b as char);
        assert(line@ =~= latin1(all.take(n + 1)));
        assert(sock.pending() =~= all.skip(n + 1));
        if b == 10 && last == 13 && n > 0 {
            return Ok(line);
        }
        last = b;
        n = n + 1;
    }
}

/// Whether an outgoing buffer can be sent: it holds at least the sixteen
/// bytes of the smallest frame, its length fits the length field, and the
/// header length that its builder left in the length field does not exceed it.
pub open spec fn sendable(msg: Seq<u8>) -> bool {
    16 <= msg.len() <= u32::MAX && le_u32(msg, 4) <= msg.len()
}

/// Whether the buffer holds a method call whose sender waits for a reply: the
/// type is that of a method call, and among the flags the lowest bit, which
/// says that no reply is expected, is not set.
pub open spec fn awaits_reply(msg: Seq<u8>) -> bool {
    msg.len() >= 3 && msg[1] == MESSAGE_TYPE_METHOD_CALL && msg[2] % 2 == 0
}

/// Whether the buffer holds a method call whose sender waits for a reply.
pub fn expects_reply(mbuf: &MessageBuf) -> (b: bool)
    ensures
        b == awaits_reply(mbuf.0@),
{
    mbuf.0.len() >= 3 && mbuf.0[1] == MESSAGE_TYPE_METHOD_CALL && mbuf.0[2] % 2 == 0
}

/// The buffer as it is transmitted: the length field holds the length of the
/// body, which is the length of the buffer less the header length that the
/// field held before, and the serial field holds `serial`.
pub open spec fn finalized(msg: Seq<u8>, serial: u32) -> Seq<u8> {
    msg.take(4) + le_bytes_u32(msg.len() - le_u32(msg, 4)) + le_bytes_u32(serial as int)
        + msg.skip(12)
}

/// The serial that follows `serial`: one more, and after the largest the
/// smallest.
pub open spec fn serial_after(serial: u32) -> u32 {
    if serial == u32::MAX {
        0
    } else {
        (serial + 1) as u32
    }
}

/// A connection that did not come about: why, and the socket as the attempt
/// has left it, with what was written and what is still pending.
#[derive(Debug)]
pub struct ConnectError {
    pub error: Error,
    pub sock: Socket,
}

/// A connection: a socket, the serial of the next outgoing message, and the
/// messages that were read while waiting for a reply and not yet handed out.
#[derive(Debug)]
pub struct Connection {
    sock: Socket,
    next_serial: u32,
    queue: Vec<Message>,
}

impl Connection {
    /// The socket of the connection.
    pub closed spec fn socket(&self) -> Socket {
        self.sock
    }

    /// The serial that the next outgoing message gets.
    pub closed spec fn next_serial(&self) -> u32 {
        self.next_serial
    }

    /// The messages that wait to be handed out, oldest first.
    pub closed spec fn queued(&self) -> Seq<MessageModel> {
        message_models(self.queue@)
    }

    /// A connection over the given socket.  Nothing is queued, and the first
    /// message sent gets the serial 1.
    pub fn new(sock: Socket) -> (conn: Connection)
        ensures
            conn.socket() == sock,
            conn.next_serial() == 1,
            conn.queued() == Seq::<MessageModel>::empty(),
    {
        let conn = Connection { sock, next_serial: 1, queue: Vec::new() };
        assert(conn.queued() =~= Seq::<MessageModel>::empty());
        conn
    }

    /// Gives up the connection for its socket.
    pub fn into_socket(self) -> (sock: Socket)
        ensures
            sock == self.socket(),
    {
        self.sock
    }

    /// Sends a message.  The length and serial fields of the buffer are set,
    /// the buffer is written to the socket in one piece, and the serial that
    /// the message got is returned.
    ///
    /// A buffer that is not `sendable` is refused and nothing changes.  If
    /// the stream has failed the serial is used up all the same.
    pub fn send(&mut self, mbuf: &mut MessageBuf) -> (r: Result<u32, Error>)
        ensures
            final(self).queued() == old(self).queued(),
            final(self).socket().pending() == old(self).socket().pending(),
            final(self).socket().fault() == old(self).socket().fault(),
            final(self).socket().kind() == old(self).socket().kind(),
            !sendable(old(mbuf).0@) ==> {
                &&& r == Err::<u32, Error>(Error::BadData)
                &&& final(mbuf).0@ == old(mbuf).0@
                &&& final(self).next_serial() == old(self).next_serial()
                &&& final(self).socket().written() == old(self).socket().written()
            },
            sendable(old(mbuf).0@) ==> {
                &&& final(mbuf).0@ == finalized(old(mbuf).0@, old(self).next_serial())
                &&& final(self).next_serial() == serial_after(old(self).next_serial())
                &&& match old(self).socket().fault() {
                    Some(kind) => r == Err::<u32, Error>(Error::IOError(kind))
                        && final(self).socket().written() == old(self).socket().written(),
                    None => r == Ok::<u32, Error>(old(self).next_serial())
                        && final(self).socket().written() == old(self).socket().written()
                        + final(mbuf).0@,
                }
            },
    {
        let total: usize = mbuf.0.len();
        if total < 16 || total > 0xffff_ffff {
            return Err(Error::BadData);
        }
        let header_len: u32 = get_length(&mbuf.0);
        if header_len as usize > total {
            return Err(Error::BadData);
        }
        let body_len: u32 = total as u32 - header_len;
        let mut fields: Vec<u8> = Vec::new();
        encode_u32(body_len, &mut fields);
        let this_serial: u32 = self.next_serial;
        self.next_serial = self.next_serial.wrapping_add(1);
        encode_u32(this_serial, &mut fields);
        assert(fields@ =~= le_bytes_u32(body_len as int) + le_bytes_u32(this_serial as int));
        set_length(&mut mbuf.0, &fields);
        assert(mbuf.0@ =~= finalized(old(mbuf).0@, this_serial));
        match self.sock.write_all(mbuf.0.as_slice()) {
            Err(kind) => Err(Error::from(kind)),
            Ok(()) => Ok(this_serial),
        }
    }

    /// Hands out the next message: the oldest one queued or, with none
    /// queued, the next frame read from the socket.
    pub fn read_msg(&mut self) -> (r: Result<Message, Error>)
        ensures
            final(self).next_serial() == old(self).next_serial(),
            final(self).socket().written() == old(self).socket().written(),
            final(self).socket().fault() == old(self).socket().fault(),
            final(self).socket().kind() == old(self).socket().kind(),
            match spec_next(
                old(self).queued(),
                old(self).socket().pending(),
                old(self).socket().fault(),
            ) {
                (Ok(m), queue, pending) => r matches Ok(msg) && msg@ == m && final(self).queued()
                    == queue && final(self).socket().pending() == pending,
                (Err(e), queue, pending) => r == Err::<Message, Error>(e) && final(self).queued()
                    == queue && final(self).socket().pending() == pending,
            },
    {
        if self.queue.len() > 0 {
            let msg = self.queue.remove(0);
            assert(self.queued() =~= old(self).queued().skip(1));
            return Ok(msg);
        }
        read_frame(&mut self.sock)
    }
}

impl Connection {
    /// Hands bytes that have arrived from the peer to the socket.
    pub fn receive(&mut self, data: &[u8])
        ensures
            final(self).socket().pending() == old(self).socket().pending() + data@,
            final(self).socket().written() == old(self).socket().written(),
            final(self).socket().fault() == old(self).socket().fault(),
            final(self).socket().kind() == old(self).socket().kind(),
            final(self).queued() == old(self).queued(),
            final(self).next_serial() == old(self).next_serial(),
    {
        self.sock.receive(data);
    }

    /// Records that the underlying stream has failed.
    pub fn fail(&mut self, kind: std::io::ErrorKind)
        ensures
            final(self).socket().fault() == Some(kind),
            final(self).socket().pending() == old(self).socket().pending(),
            final(self).socket().written() == old(self).socket().written(),
            final(self).socket().kind() == old(self).socket().kind(),
            final(self).queued() == old(self).queued(),
            final(self).next_serial() == old(self).next_serial(),
    {
        self.sock.fail(kind);
    }

    /// Collects the bytes that are to go to the peer.
    pub fn take_written(&mut self) -> (bytes: Vec<u8>)
        ensures
            bytes@ == old(self).socket().written(),
            final(self).socket().written() == Seq::<u8>::empty(),
            final(self).socket().pending() == old(self).socket().pending(),
            final(self).socket().fault() == old(self).socket().fault(),
            final(self).socket().kind() == old(self).socket().kind(),
            final(self).queued() == old(self).queued(),
            final(self).next_serial() == old(self).next_serial(),
    {
        self.sock.take_written()
    }

    /// The bytes that have arrived and have not been read yet.
    pub fn peek(&self) -> (bytes: &[u8])
        ensures
            bytes@ == self.socket().pending(),
    {
        self.sock.peek()
    }

    /// How many messages wait in the queue.
    pub fn queue_len(&self) -> (n: usize)
        ensures
            n == self.queued().len(),
    {
        self.queue.len()
    }

    /// The serial that the next outgoing message gets.
    pub fn serial(&self) -> (serial: u32)
        ensures
            serial == self.next_serial(),
    {
        self.next_serial
    }

    /// Which transport the connection runs over.
    pub fn kind(&self) -> (kind: SocketKind)
        ensures
            kind == self.socket().kind(),
    {
        self.sock.get_kind()
    }

    /// Makes one attempt to get the reply to the call with the given serial.
    ///
    /// The next message is taken as `read_msg` takes it.  If it is the reply,
    /// its body is returned and the messages in `skipped` go to the front of
    /// the queue; so they do if no message can be had.  Any other message is
    /// added to `skipped`, and the result is `None`.
    pub fn poll_reply(&mut self, serial: u32, skipped: &mut Vec<Message>) -> (r: Result<
        Option<Vec<Value>>,
        Error,
    >)
        ensures
            final(self).next_serial() == old(self).next_serial(),
            final(self).socket().written() == old(self).socket().written(),
            final(self).socket().fault() == old(self).socket().fault(),
            final(self).socket().kind() == old(self).socket().kind(),
            final(self).socket().pending() == spec_poll(
                old(self).queued(),
                old(self).socket().pending(),
                old(self).socket().fault(),
                serial,
            ).pending,
            match spec_poll(
                old(self).queued(),
                old(self).socket().pending(),
                old(self).socket().fault(),
                serial,
            ) {
                Polled { outcome: Poll::Failed(e), queue, pending } => {
                    &&& r == Err::<Option<Vec<Value>>, Error>(e)
                    &&& final(self).queued() == message_models(old(skipped)@) + queue
                    &&& final(skipped)@.len() == 0
                },
                Polled { outcome: Poll::Reply(body), queue, pending } => {
                    &&& r matches Ok(Some(values))
                    &&& models(values@) == body
                    &&& final(self).queued() == message_models(old(skipped)@) + queue
                    &&& final(skipped)@.len() == 0
                },
                Polled { outcome: Poll::Skipped(msg), queue, pending } => {
                    &&& r matches Ok(None)
                    &&& final(self).queued() == queue
                    &&& message_models(final(skipped)@) == message_models(old(skipped)@).push(
                        msg,
                    )
                },
            },
    {
        let next = self.read_msg();
        let ghost rest = self.queued();
        let found: Option<Vec<Value>> = match next {
            Err(e) => {
                self.requeue(skipped);
                return Err(e);
            },
            Ok(msg) => match reply_to(&msg) {
                ReplyTo::Malformed => {
                    self.requeue(skipped);
                    return Err(Error::ProtocolViolation);
                },
                ReplyTo::Serial(s) => if s == serial {
                    Some(msg.body)
                } else {
                    skipped.push(msg);
                    None
                },
                ReplyTo::Nothing => {
                    skipped.push(msg);
                    None
                },
            },
        };
        match found {
            Some(values) => {
                self.requeue(skipped);
                Ok(Some(values))
            },
            None => {
                assert(message_models(skipped@) =~= message_models(old(skipped)@).push(
                    skipped@.last()@,
                ));
                Ok(None)
            },
        }
    }

    /// Puts the messages of `skipped` at the front of the queue, in their
    /// order, and leaves `skipped` empty.
    fn requeue(&mut self, skipped: &mut Vec<Message>)
        ensures
            final(self).next_serial() == old(self).next_serial(),
            final(self).socket() == old(self).socket(),
            final(self).queued() == message_models(old(skipped)@) + old(self).queued(),
            final(skipped)@.len() == 0,
    {
        skipped.append(&mut self.queue);
        std::mem::swap(&mut self.queue, skipped);
        assert(self.queued() =~= message_models(old(skipped)@) + old(self).queued());
    }

    /// Waits for the reply to the call with the given serial and returns its
    /// body.  The messages that come before it are queued in their order,
    /// in front of what was in the queue and had not been looked at.
    pub fn wait_reply(&mut self, serial: u32) -> (r: Result<Vec<Value>, Error>)
        ensures
            final(self).next_serial() == old(self).next_serial(),
            final(self).socket().written() == old(self).socket().written(),
            final(self).socket().fault() == old(self).socket().fault(),
            final(self).socket().kind() == old(self).socket().kind(),
            waited(
                spec_wait(
                    old(self).queued(),
                    old(self).socket().pending(),
                    old(self).socket().fault(),
                    serial,
                    Seq::empty(),
                ),
                r,
                final(self).queued(),
                final(self).socket().pending(),
            ),
    {
        let ghost whole = spec_wait(
            self.queued(),
            self.socket().pending(),
            self.socket().fault(),
            serial,
            Seq::empty(),
        );
        let mut skipped: Vec<Message> = Vec::new();
        assert(message_models(skipped@) =~= Seq::empty());
        loop
            invariant
                self.next_serial() == old(self).next_serial(),
                self.socket().written() == old(self).socket().written(),
                self.socket().fault() == old(self).socket().fault(),
                self.socket().kind() == old(self).socket().kind(),
                whole == spec_wait(
                    old(self).queued(),
                    old(self).socket().pending(),
                    old(self).socket().fault(),
                    serial,
                    Seq::empty(),
                ),
                whole == spec_wait(
                    self.queued(),
                    self.socket().pending(),
                    self.socket().fault(),
                    serial,
                    message_models(skipped@),
                ),
            decreases self.queued().len() + self.socket().pending().len(),
        {
            match self.poll_reply(serial, &mut skipped) {
                Err(e) => {
                    return Err(e);
                },
                Ok(Some(values)) => {
                    return Ok(values);
                },
                Ok(None) => {},
            }
        }
    }

    /// Sends a method call and waits for its reply, whose body is returned.
    ///
    /// A message to which no reply is owed, because it is no method call or
    /// says that it expects none, is refused like one that cannot be sent:
    /// nothing is written and nothing changes.
    pub fn call_sync(&mut self, mbuf: &mut MessageBuf) -> (r: Result<Vec<Value>, Error>)
        ensures
            final(self).socket().fault() == old(self).socket().fault(),
            final(self).socket().kind() == old(self).socket().kind(),
            !(sendable(old(mbuf).0@) && awaits_reply(old(mbuf).0@)) ==> {
                &&& r == Err::<Vec<Value>, Error>(Error::BadData)
                &&& final(mbuf).0@ == old(mbuf).0@
                &&& final(self).next_serial() == old(self).next_serial()
                &&& final(self).socket().written() == old(self).socket().written()
                &&& final(self).socket().pending() == old(self).socket().pending()
                &&& final(self).queued() == old(self).queued()
            },
            sendable(old(mbuf).0@) && awaits_reply(old(mbuf).0@) ==> {
                &&& final(mbuf).0@ == finalized(old(mbuf).0@, old(self).next_serial())
                &&& final(self).next_serial() == serial_after(old(self).next_serial())
                &&& match old(self).socket().fault() {
                    Some(kind) => {
                        &&& r == Err::<Vec<Value>, Error>(Error::IOError(kind))
                        &&& final(self).socket().written() == old(self).socket().written()
                        &&& final(self).socket().pending() == old(self).socket().pending()
                        &&& final(self).queued() == old(self).queued()
                    },
                    None => {
                        &&& final(self).socket().written() == old(self).socket().written()
                            + final(mbuf).0@
                        &&& waited(
                            spec_wait(
                                old(self).queued(),
                                old(self).socket().pending(),
                                None,
                                old(self).next_serial(),
                                Seq::empty(),
                            ),
                            r,
                            final(self).queued(),
                            final(self).socket().pending(),
                        )
                    },
                }
            },
    {
        if !expects_reply(mbuf) {
            return Err(Error::BadData);
        }
        let serial: u32 = match self.send(mbuf) {
            Err(e) => {
                return Err(e);
            },
            Ok(serial) => serial,
        };
        self.wait_reply(serial)
    }
}

impl Connection {
    /// Writes `data` to the socket.
    fn write(&mut self, data: &[u8]) -> (r: Result<(), Error>)
        ensures
            final(self).queued() == old(self).queued(),
            final(self).next_serial() == old(self).next_serial(),
            final(self).socket().pending() == old(self).socket().pending(),
            final(self).socket().fault() == old(self).socket().fault(),
            final(self).socket().kind() == old(self).socket().kind(),
            (r, final(self).socket().written()) == spec_write(
                old(self).socket().written(),
                old(self).socket().fault(),
                data@,
            ),
    {
        match self.sock.write_all(data) {
            Err(kind) => Err(Error::from(kind)),
            Ok(()) => Ok(()),
        }
    }

    /// Writes the single NUL byte with which a client opens the stream.
    pub fn send_nul_byte(&mut self) -> (r: Result<(), Error>)
        ensures
            final(self).queued() == old(self).queued(),
            final(self).next_serial() == old(self).next_serial(),
            final(self).socket().pending() == old(self).socket().pending(),
            final(self).socket().fault() == old(self).socket().fault(),
            final(self).socket().kind() == old(self).socket().kind(),
            (r, final(self).socket().written()) == spec_write(
                old(self).socket().written(),
                old(self).socket().fault(),
                seq![0u8],
            ),
    {
        let mut nul: Vec<u8> = Vec::new();
        nul.push(0u8);
        assert(nul@ =~= seq![0u8]);
        self.write(nul.as_slice())
    }

    /// Writes the command that asks for anonymous authentication.
    pub fn request_anonymous(&mut self) -> (r: Result<(), Error>)
        ensures
            final(self).queued() == old(self).queued(),
            final(self).next_serial() == old(self).next_serial(),
            final(self).socket().pending() == old(self).socket().pending(),
            final(self).socket().fault() == old(self).socket().fault(),
            final(self).socket().kind() == old(self).socket().kind(),
            (r, final(self).socket().written()) == spec_write(
                old(self).socket().written(),
                old(self).socket().fault(),
                spec_auth_anonymous(),
            ),
    {
        let cmd = auth_anonymous_command();
        self.write(cmd.as_slice())
    }

    /// Writes the command that asks for authentication as the user `uid`.
    pub fn request_external(&mut self, uid: u32) -> (r: Result<(), Error>)
        ensures
            final(self).queued() == old(self).queued(),
            final(self).next_serial() == old(self).next_serial(),
            final(self).socket().pending() == old(self).socket().pending(),
            final(self).socket().fault() == old(self).socket().fault(),
            final(self).socket().kind() == old(self).socket().kind(),
            (r, final(self).socket().written()) == spec_write(
                old(self).socket().written(),
                old(self).socket().fault(),
                spec_auth_external(uid),
            ),
    {
        let cmd = auth_external_command(uid);
        self.write(cmd.as_slice())
    }

    /// Reads the reply to an authentication command.  If the line begins
    /// with `"OK "` the handshake is ended with `BEGIN`; if not, the
    /// authentication has failed and nothing is written.
    pub fn finish_auth(&mut self) -> (r: Result<(), Error>)
        ensures
            final(self).queued() == old(self).queued(),
            final(self).next_serial() == old(self).next_serial(),
            final(self).socket().fault() == old(self).socket().fault(),
            final(self).socket().kind() == old(self).socket().kind(),
            (r, final(self).socket().written(), final(self).socket().pending())
                == spec_finish_auth(
                old(self).socket().written(),
                old(self).socket().pending(),
                old(self).socket().fault(),
            ),
    {
        let ghost p = self.socket().pending();
        let line: String = match read_line(&mut self.sock) {
            Err(e) => {
                return Err(e);
            },
            Ok(line) => line,
        };
        let text: &str = line.as_str();
        if text.unicode_len() < 3 || text.get_char(0) != 'O' || text.get_char(1) != 'K'
            || text.get_char(2) != ' ' {
            return Err(Error::AuthFailed);
        }
        let cmd = begin_command();
        self.write(cmd.as_slice())
    }

    /// Authenticates without naming a user.
    pub fn auth_anonymous(&mut self) -> (r: Result<(), Error>)
        ensures
            final(self).queued() == old(self).queued(),
            final(self).next_serial() == old(self).next_serial(),
            final(self).socket().fault() == old(self).socket().fault(),
            final(self).socket().kind() == old(self).socket().kind(),
            (r, final(self).socket().written(), final(self).socket().pending()) == spec_auth(
                old(self).socket().written(),
                old(self).socket().pending(),
                old(self).socket().fault(),
                spec_auth_anonymous(),
            ),
    {
        match self.request_anonymous() {
            Err(e) => {
                return Err(e);
            },
            Ok(()) => {},
        }
        self.finish_auth()
    }

    /// Authenticates as the user with the id `uid`.
    pub fn auth_external(&mut self, uid: u32) -> (r: Result<(), Error>)
        ensures
            final(self).queued() == old(self).queued(),
            final(self).next_serial() == old(self).next_serial(),
            final(self).socket().fault() == old(self).socket().fault(),
            final(self).socket().kind() == old(self).socket().kind(),
            (r, final(self).socket().written(), final(self).socket().pending()) == spec_auth(
                old(self).socket().written(),
                old(self).socket().pending(),
                old(self).socket().fault(),
                spec_auth_external(uid),
            ),
    {
        match self.request_external(uid) {
            Err(e) => {
                return Err(e);
            },
            Ok(()) => {},
        }
        self.finish_auth()
    }
}

impl Connection {
    /// Calls `Hello` on the bus and returns the name that the bus gives to
    /// this connection.
    pub fn say_hello(&mut self) -> (r: Result<String, Error>)
        ensures
            final(self).socket().fault() == old(self).socket().fault(),
            final(self).socket().kind() == old(self).socket().kind(),
            final(self).next_serial() == serial_after(old(self).next_serial()),
            match old(self).socket().fault() {
                Some(kind) => {
                    &&& r == Err::<String, Error>(Error::IOError(kind))
                    &&& final(self).socket().written() == old(self).socket().written()
                    &&& final(self).socket().pending() == old(self).socket().pending()
                    &&& final(self).queued() == old(self).queued()
                },
                None => {
                    let hello = spec_wait(
                        old(self).queued(),
                        old(self).socket().pending(),
                        None,
                        old(self).next_serial(),
                        Seq::empty(),
                    );
                    &&& final(self).socket().written() == old(self).socket().written()
                        + finalized(spec_hello_call(), old(self).next_serial())
                    &&& final(self).socket().pending() == hello.pending
                    &&& final(self).queued() == hello.queue
                    &&& named(hello.result, r)
                },
            },
    {
        let mut msg = hello_call();
        match self.call_sync(&mut msg) {
            Err(e) => Err(e),
            Ok(body) => bus_name(&body),
        }
    }

    /// Writes the command that asks for the authentication that goes with
    /// the kind of the socket: as the user `uid` over a Unix domain socket,
    /// anonymous over TCP.
    pub fn request_auth(&mut self, uid: u32) -> (r: Result<(), Error>)
        ensures
            final(self).queued() == old(self).queued(),
            final(self).next_serial() == old(self).next_serial(),
            final(self).socket().pending() == old(self).socket().pending(),
            final(self).socket().fault() == old(self).socket().fault(),
            final(self).socket().kind() == old(self).socket().kind(),
            (r, final(self).socket().written()) == spec_write(
                old(self).socket().written(),
                old(self).socket().fault(),
                spec_auth_command(old(self).socket().kind(), uid),
            ),
    {
        match self.kind() {
            SocketKind::Uds => self.request_external(uid),
            SocketKind::Tcp => self.request_anonymous(),
        }
    }

    /// Sets up a connection over a stream: the NUL byte, the authentication
    /// that goes with the kind of the socket, and `Hello`.  Where one of
    /// them fails the socket is handed back as it then is.
    fn handshake(sock: Socket, uid: u32) -> (r: Result<Connection, ConnectError>)
        ensures
            connected(
                spec_connect(
                    sock.written(),
                    sock.pending(),
                    sock.fault(),
                    spec_auth_command(sock.kind(), uid),
                ),
                sock,
                r,
            ),
    {
        let mut conn = Connection::new(sock);
        match conn.send_nul_byte() {
            Err(e) => {
                return Err(ConnectError { error: e, sock: conn.into_socket() });
            },
            Ok(()) => {},
        }
        match conn.request_auth(uid) {
            Err(e) => {
                return Err(ConnectError { error: e, sock: conn.into_socket() });
            },
            Ok(()) => {},
        }
        match conn.finish_auth() {
            Err(e) => {
                return Err(ConnectError { error: e, sock: conn.into_socket() });
            },
            Ok(()) => {},
        }
        match conn.say_hello() {
            Err(e) => Err(ConnectError { error: e, sock: conn.into_socket() }),
            Ok(_) => Ok(conn),
        }
    }

    /// Sets up a connection over a Unix domain socket, authenticating as the
    /// user with the id `uid`.  If no connection comes about, the error
    /// comes with the socket as the attempt has left it.
    pub fn connect_uds(sock: Socket, uid: u32) -> (r: Result<Connection, ConnectError>)
        requires
            sock.kind() == SocketKind::Uds,
        ensures
            connected(
                spec_connect(
                    sock.written(),
                    sock.pending(),
                    sock.fault(),
                    spec_auth_external(uid),
                ),
                sock,
                r,
            ),
    {
        Connection::handshake(sock, uid)
    }

    /// Sets up a connection over a TCP socket, authenticating anonymously.
    /// If no connection comes about, the error comes with the socket as the
    /// attempt has left it.
    pub fn connect_tcp(sock: Socket) -> (r: Result<Connection, ConnectError>)
        requires
            sock.kind() == SocketKind::Tcp,
        ensures
            connected(
                spec_connect(sock.written(), sock.pending(), sock.fault(), spec_auth_anonymous()),
                sock,
                r,
            ),
    {
        Connection::handshake(sock, 0)
    }
}

impl Connection {
    /// Sets up a connection to the bus at the given address.
    fn connect_addr(addr: ServerAddress, sock: Socket, uid: u32) -> (r: Result<
        Connection,
        ConnectError,
    >)
        requires
            sock.kind() == SocketKind::Uds,
        ensures
            connected(
                spec_connect(
                    sock.written(),
                    sock.pending(),
                    sock.fault(),
                    spec_auth_external(uid),
                ),
                sock,
                r,
            ),
    {
        match addr {
            ServerAddress::Unix(_) => Connection::connect_uds(sock, uid),
        }
    }

    /// Sets up a connection to the bus at the address `addr`, over the
    /// stream `sock` that has been opened to it, as the user `uid`.  An
    /// address that is not understood is refused before anything is written,
    /// and the socket comes back untouched.
    pub fn connect(addr: &str, sock: Socket, uid: u32) -> (r: Result<Connection, ConnectError>)
        requires
            sock.kind() == SocketKind::Uds,
        ensures
            connected(
                spec_connect_address(
                    addr.spec_bytes(),
                    sock.written(),
                    sock.pending(),
                    sock.fault(),
                    uid,
                ),
                sock,
                r,
            ),
            spec_server_address(addr.spec_bytes()) is Err ==> (r matches Err(failed)
                && failed.sock == sock),
    {
        match ServerAddress::parse(addr) {
            Err(e) => Err(ConnectError { error: Error::from(e), sock }),
            Ok(address) => Connection::connect_addr(address, sock, uid),
        }
    }

    /// Sets up a connection to the system bus.  `env` is what the
    /// environment gives under `DBUS_SYSTEM_BUS_ADDRESS`; without it the
    /// well-known address is taken.
    pub fn connect_system(env: Option<&str>, sock: Socket, uid: u32) -> (r: Result<
        Connection,
        ConnectError,
    >)
        requires
            sock.kind() == SocketKind::Uds,
        ensures
            connected(
                spec_connect_address(
                    match env {
                        Some(named) => named.spec_bytes(),
                        None => spec_default_system_address(),
                    },
                    sock.written(),
                    sock.pending(),
                    sock.fault(),
                    uid,
                ),
                sock,
                r,
            ),
    {
        Connection::connect(system_address(env), sock, uid)
    }

    /// Sets up a connection to the session bus.  `env` is what the
    /// environment gives under `DBUS_SESSION_BUS_ADDRESS`; without it there
    /// is no session bus to connect to, and the socket comes back untouched.
    pub fn connect_session(env: Option<&str>, sock: Socket, uid: u32) -> (r: Result<
        Connection,
        ConnectError,
    >)
        requires
            sock.kind() == SocketKind::Uds,
        ensures
            match env {
                None => (r matches Err(failed) && failed.error == Error::NoEnvironment
                    && failed.sock == sock),
                Some(named) => connected(
                    spec_connect_address(
                        named.spec_bytes(),
                        sock.written(),
                        sock.pending(),
                        sock.fault(),
                        uid,
                    ),
                    sock,
                    r,
                ),
            },
    {
        match session_address(env) {
            Err(e) => Err(ConnectError { error: e, sock }),
            Ok(addr) => Connection::connect(addr, sock, uid),
        }
    }
}

/// What is transmitted for a buffer that can be sent has the length of the
/// buffer; its length field holds the length of the buffer less the header
/// length that the builder left there, and its serial field the serial.
/// Everything else is as it was.
pub proof fn lemma_finalized_fields(msg: Seq<u8>, serial: u32)
    requires
        sendable(msg),
    ensures
        finalized(msg, serial).len() == msg.len(),
        le_u32(finalized(msg, serial), 4) == msg.len() - le_u32(msg, 4),
        le_u32(finalized(msg, serial), 8) == serial,
        finalized(msg, serial).take(4) == msg.take(4),
        finalized(msg, serial).skip(12) == msg.skip(12),
{
    let out = finalized(msg, serial);
    let body = msg.len() - le_u32(msg, 4);
    assert(out.subrange(4, 8) =~= le_bytes_u32(body));
    assert(out.subrange(8, 12) =~= le_bytes_u32(serial as int));
    crate::marshal::lemma_u32_round_trip(out, 4, body);
    crate::marshal::lemma_u32_round_trip(out, 8, serial as int);
    assert(out.take(4) =~= msg.take(4));
    assert(out.skip(12) =~= msg.skip(12));
}

/// The serial of the message that a fresh connection sends after `k` others.
pub open spec fn nth_serial(k: nat) -> u32
    decreases k,
{
    if k == 0 {
        1
    } else {
        serial_after(nth_serial((k - 1) as nat))
    }
}

/// The messages that a fresh connection sends get the serials 1, 2, 3 and
/// so on, none left out and none used twice, up to the largest there is.
pub proof fn lemma_serials_in_a_row(k: nat)
    requires
        k < u32::MAX,
    ensures
        nth_serial(k) == k + 1,
    decreases k,
{
    if k > 0 {
        lemma_serials_in_a_row((k - 1) as nat);
    }
}

/// Serials are given out one after the other: of two messages sent in a row
/// the second gets the serial that follows that of the first, which is one
/// more unless the first got the largest serial there is.
pub proof fn lemma_serials_count_up(serial: u32)
    ensures
        serial < u32::MAX ==> serial_after(serial) == serial + 1,
        serial == u32::MAX ==> serial_after(serial) == 0,
{
}

/// Finds out whether the bytes hold a whole line.
fn holds_line(bytes: &[u8]) -> (b: bool)
    ensures
        b == (line_length(bytes@) is Some),
{
    let mut i: usize = 0;
    while i < bytes.len()
        invariant
            line_length(bytes@) == line_length_from(bytes@, i as int),
        decreases bytes.len() - i,
    {
        if i > 0 && bytes[i - 1] == 13 && bytes[i] == 10 {
            return true;
        }
        i = i + 1;
    }
    false
}

impl Connection {
    /// Whether a whole line is pending, so that the reply to an
    /// authentication command can be read.
    pub fn line_ready(&self) -> (b: bool)
        ensures
            b == (line_length(self.socket().pending()) is Some),
    {
        holds_line(self.sock.peek())
    }

    /// How many bytes have to arrive yet before `read_msg` can hand out a
    /// message without running out of bytes: none if a message is queued,
    /// otherwise what the pending frame lacks.
    pub fn bytes_missing(&self) -> (n: u64)
        ensures
            n == if self.queued().len() > 0 {
                0
            } else {
                spec_bytes_missing(self.socket().pending())
            },
    {
        if self.queue.len() > 0 {
            0
        } else {
            bytes_missing(self.sock.peek())
        }
    }
}

} // verus!
