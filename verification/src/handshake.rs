//! The handshake: what authenticating and setting up a connection come to.

use vstd::prelude::*;
use vstd::string::StringSliceAdditionalSpecFns;
use crate::address::spec_server_address;
use crate::auth::{accepted, spec_auth_anonymous, spec_auth_external, spec_begin};
use crate::connection::{
    awaits_reply, finalized, line_length, sendable, short_read_error, ConnectError, Connection,
    Error,
};
use crate::message::{create_method_call, spec_method_call, MessageBuf, MessageModel};
use crate::reply::spec_wait;
use crate::socket::{Socket, SocketKind};
use crate::types::{lemma_container_models, models, BasicModel, BasicValue, Value, ValueModel};

verus! {

/// What a write gives and leaves written: on a stream that has failed the
/// failure and nothing more, otherwise the data after what was written before.
pub open spec fn spec_write(written: Seq<u8>, fault: Option<std::io::ErrorKind>, data: Seq<u8>) -> (
    Result<(), Error>,
    Seq<u8>,
) {
    match fault {
        Some(kind) => (Err(Error::IOError(kind)), written),
        None => (Ok(()), written + data),
    }
}

/// The second half of the authentication: the reply line is read, and if it
/// accepts, the handshake is ended with `BEGIN`.  Gives the result and what
/// is then written and pending.
pub open spec fn spec_finish_auth(
    written: Seq<u8>,
    pending: Seq<u8>,
    fault: Option<std::io::ErrorKind>,
) -> (Result<(), Error>, Seq<u8>, Seq<u8>) {
    match line_length(pending) {
        None => (Err(short_read_error(fault)), written, Seq::empty()),
        Some(n) => if !accepted(pending.take(n)) {
            (Err(Error::AuthFailed), written, pending.skip(n))
        } else {
            let (r, w) = spec_write(written, fault, spec_begin());
            (r, w, pending.skip(n))
        },
    }
}

/// The authentication with the command `cmd`: the command is written, then
/// the reply is dealt with.  Gives the result and what is then written and
/// pending.
pub open spec fn spec_auth(
    written: Seq<u8>,
    pending: Seq<u8>,
    fault: Option<std::io::ErrorKind>,
    cmd: Seq<u8>,
) -> (Result<(), Error>, Seq<u8>, Seq<u8>) {
    match fault {
        Some(kind) => (Err(Error::IOError(kind)), written, pending),
        None => spec_finish_auth(written + cmd, pending, fault),
    }
}

/// The buffer of the call that a client makes first: `Hello` on the bus
/// itself.
pub open spec fn spec_hello_call() -> Seq<u8> {
    spec_method_call(
        "org.freedesktop.DBus".spec_bytes(),
        "/org/freedesktop/DBus".spec_bytes(),
        "org.freedesktop.DBus".spec_bytes(),
        "Hello".spec_bytes(),
    )
}

/// The name that the bus gave: the first value of the reply to `Hello`,
/// which has to be a string.
pub open spec fn spec_bus_name(body: Seq<ValueModel>) -> Result<Seq<char>, Error> {
    if body.len() > 0 {
        match body[0] {
            ValueModel::Basic(BasicModel::String(name)) => Ok(name),
            _ => Err(Error::BadData),
        }
    } else {
        Err(Error::BadData)
    }
}

/// The name of the bus takes twenty bytes.
proof fn lemma_bus_name_length()
    ensures
        "org.freedesktop.DBus".spec_bytes().len() == 20,
{
    reveal_strlit("org.freedesktop.DBus");
    vstd::string::is_ascii_spec_bytes("org.freedesktop.DBus");
}

/// The path of the bus takes twenty-one bytes.
proof fn lemma_bus_path_length()
    ensures
        "/org/freedesktop/DBus".spec_bytes().len() == 21,
{
    reveal_strlit("/org/freedesktop/DBus");
    vstd::string::is_ascii_spec_bytes("/org/freedesktop/DBus");
}

/// The name of the first call takes five bytes.
proof fn lemma_hello_length()
    ensures
        "Hello".spec_bytes().len() == 5,
{
    reveal_strlit("Hello");
    vstd::string::is_ascii_spec_bytes("Hello");
}

/// Builds the call of `Hello` on the bus.
#[verifier::spinoff_prover]
#[verifier::rlimit(40)]
pub fn hello_call() -> (mbuf: MessageBuf)
    ensures
        mbuf.0@ == spec_hello_call(),
        sendable(mbuf.0@),
        awaits_reply(mbuf.0@),
{
    proof {
        lemma_bus_name_length();
        lemma_bus_path_length();
        lemma_hello_length();
    }
    create_method_call(
        "org.freedesktop.DBus",
        "/org/freedesktop/DBus",
        "org.freedesktop.DBus",
        "Hello",
    )
}

/// Takes the name that the bus gave from the body of the reply to `Hello`.
pub fn bus_name(body: &Vec<Value>) -> (r: Result<String, Error>)
    ensures
        match (r, spec_bus_name(models(body@))) {
            (Ok(name), Ok(n)) => name@ == n,
            (Err(e1), Err(e2)) => e1 == e2,
            _ => false,
        },
{
    if body.len() == 0 {
        return Err(Error::BadData);
    }
    proof {
        lemma_container_models(body@[0]);
    }
    match &body[0] {
        Value::BasicValue(BasicValue::String(name)) => Ok(name.clone()),
        _ => Err(Error::BadData),
    }
}

/// Whether `r` is the name that the end `result` of a wait for the reply to
/// `Hello` gives.
pub open spec fn named(result: Result<Seq<ValueModel>, Error>, r: Result<String, Error>) -> bool {
    match result {
        Err(e) => r == Err::<String, Error>(e),
        Ok(body) => match spec_bus_name(body) {
            Err(e) => r == Err::<String, Error>(e),
            Ok(n) => r matches Ok(name) && name@ == n,
        },
    }
}

/// What a connection that has just been set up has written, has pending
/// and holds in its queue.
pub struct Established {
    pub written: Seq<u8>,
    pub pending: Seq<u8>,
    pub queue: Seq<MessageModel>,
}

/// Why a connection did not come about, and what the attempt has written
/// and left pending on the stream.
pub struct Broken {
    pub error: Error,
    pub written: Seq<u8>,
    pub pending: Seq<u8>,
}

/// The command that asks for the authentication that goes with a kind of
/// socket: as the user `uid` over a Unix domain socket, anonymous over TCP.
pub open spec fn spec_auth_command(kind: SocketKind, uid: u32) -> Seq<u8> {
    match kind {
        SocketKind::Uds => spec_auth_external(uid),
        SocketKind::Tcp => spec_auth_anonymous(),
    }
}

/// Setting up a connection over a stream on which `written` has been written
/// and `pending` is pending: the NUL byte, the authentication with `cmd`,
/// and the call of `Hello` with the serial 1, whose reply has to give a name.
/// Where one of these fails nothing more is written or read.
pub open spec fn spec_connect(
    written: Seq<u8>,
    pending: Seq<u8>,
    fault: Option<std::io::ErrorKind>,
    cmd: Seq<u8>,
) -> Result<Established, Broken> {
    match fault {
        Some(kind) => Err(Broken { error: Error::IOError(kind), written, pending }),
        None => {
            let (auth, asked, left) = spec_finish_auth(written + seq![0u8] + cmd, pending, fault);
            let hello = spec_wait(Seq::empty(), left, fault, 1, Seq::empty());
            let called = asked + finalized(spec_hello_call(), 1);
            match (auth, hello.result) {
                (Err(e), _) => Err(Broken { error: e, written: asked, pending: left }),
                (Ok(_), Err(e)) => Err(
                    Broken { error: e, written: called, pending: hello.pending },
                ),
                (Ok(_), Ok(body)) => match spec_bus_name(body) {
                    Err(e) => Err(Broken { error: e, written: called, pending: hello.pending }),
                    Ok(_) => Ok(
                        Established {
                            written: called,
                            pending: hello.pending,
                            queue: hello.queue,
                        },
                    ),
                },
            }
        },
    }
}

/// Whether `r` is what setting up a connection over the socket `before`
/// comes to, if it goes as `outcome` says: the connection, or the error
/// together with the socket as the attempt has left it.
pub open spec fn connected(
    outcome: Result<Established, Broken>,
    before: Socket,
    r: Result<Connection, ConnectError>,
) -> bool {
    match outcome {
        Err(broken) => {
            &&& r matches Err(failed)
            &&& failed.error == broken.error
            &&& failed.sock.written() == broken.written
            &&& failed.sock.pending() == broken.pending
            &&& failed.sock.fault() == before.fault()
            &&& failed.sock.kind() == before.kind()
        },
        Ok(est) => {
            &&& r matches Ok(conn)
            &&& conn.socket().written() == est.written
            &&& conn.socket().pending() == est.pending
            &&& conn.socket().fault() is None
            &&& conn.socket().kind() == before.kind()
            &&& conn.queued() == est.queue
            &&& conn.next_serial() == 2
        },
    }
}

/// What an attempt to set up a connection has written in the end, whether
/// it led to a connection or not.
pub open spec fn written_after(outcome: Result<Established, Broken>) -> Seq<u8> {
    match outcome {
        Ok(est) => est.written,
        Err(broken) => broken.written,
    }
}

/// A peer whose first line does not begin with `"OK "` is refused: the
/// authentication fails after the command, and no connection comes about.
/// All that has been written then is the NUL byte and the command: no
/// `BEGIN` and no call.
pub proof fn lemma_refused_without_begin(written: Seq<u8>, pending: Seq<u8>, cmd: Seq<u8>, n: int)
    requires
        line_length(pending) == Some(n),
        !accepted(pending.take(n)),
    ensures
        spec_auth(written, pending, None, cmd) == (
            Err::<(), Error>(Error::AuthFailed),
            written + cmd,
            pending.skip(n),
        ),
        spec_connect(written, pending, None, cmd) == Err::<Established, Broken>(
            Broken {
                error: Error::AuthFailed,
                written: written + seq![0u8] + cmd,
                pending: pending.skip(n),
            },
        ),
{
}

/// Whatever comes of it, an attempt to set up a connection over a stream
/// that has not failed begins by writing the NUL byte and the command; on a
/// stream that has failed it writes nothing.
pub proof fn lemma_connect_begins_with_command(
    written: Seq<u8>,
    pending: Seq<u8>,
    fault: Option<std::io::ErrorKind>,
    cmd: Seq<u8>,
)
    ensures
        fault is None ==> written_after(spec_connect(written, pending, fault, cmd)).take(
            (written.len() + 1 + cmd.len()) as int,
        ) == written + seq![0u8] + cmd,
        fault is Some ==> written_after(spec_connect(written, pending, fault, cmd)) == written,
{
    if fault is None {
        let start = written + seq![0u8] + cmd;
        let (auth, asked, left) = spec_finish_auth(start, pending, fault);
        assert(asked.take(start.len() as int) =~= start);
        let called = asked + finalized(spec_hello_call(), 1);
        assert(called.take(start.len() as int) =~= start);
    }
}

/// The address of the system bus where the environment names none.
pub open spec fn spec_default_system_address() -> Seq<u8> {
    "unix:path=/var/run/dbus/system_bus_socket".spec_bytes()
}

/// The address of the system bus: the one that the environment names, or the
/// well-known one.
pub fn system_address<'a>(env: Option<&'a str>) -> (addr: &'a str)
    ensures
        addr.spec_bytes() == match env {
            Some(named) => named.spec_bytes(),
            None => spec_default_system_address(),
        },
{
    match env {
        Some(named) => named,
        None => "unix:path=/var/run/dbus/system_bus_socket",
    }
}

/// The address of the session bus: the one that the environment names.
/// There is no other.
pub fn session_address<'a>(env: Option<&'a str>) -> (r: Result<&'a str, Error>)
    ensures
        match env {
            Some(named) => r matches Ok(addr) && addr == named,
            None => r == Err::<&str, Error>(Error::NoEnvironment),
        },
{
    match env {
        Some(named) => Ok(named),
        None => Err(Error::NoEnvironment),
    }
}

/// Setting up a connection to the bus at `addr` over a stream that has been
/// opened to it: the address has to be one that is understood, or nothing
/// is written or read.
pub open spec fn spec_connect_address(
    addr: Seq<u8>,
    written: Seq<u8>,
    pending: Seq<u8>,
    fault: Option<std::io::ErrorKind>,
    uid: u32,
) -> Result<Established, Broken> {
    match spec_server_address(addr) {
        Err(e) => Err(Broken { error: Error::AddressError(e), written, pending }),
        Ok(_) => spec_connect(written, pending, fault, spec_auth_external(uid)),
    }
}

} // verus!
