//! The transport: a byte stream held in memory.
//!
//! A `Socket` stands between the connection logic and whatever moves the bytes.
//! The driver hands over what has arrived with `receive`, collects what is to be
//! sent with `take_written`, and records a failure of the underlying stream with
//! `fail`.  To the connection logic the stream then looks like a blocking socket
//! whose peer has sent exactly the pending bytes and nothing more.

use vstd::prelude::*;
use vstd::slice::slice_subrange;

verus! {

/// `std::io::ErrorKind`, carried through as an opaque value.
#[verifier::external_type_specification]
#[verifier::external_body]
pub struct ExErrorKind(std::io::ErrorKind);

/// Which of the two transports a socket is.
#[derive(Clone, Copy, PartialEq, Eq, Debug, Structural)]
pub enum SocketKind {
    Tcp,
    Uds,
}

/// One end of a duplex byte stream.
#[derive(Debug)]
pub struct Socket {
    kind: SocketKind,
    incoming: Vec<u8>,
    cursor: usize,
    outgoing: Vec<u8>,
    fault: Option<std::io::ErrorKind>,
}

impl Socket {
    /// The transport this socket stands for.
    pub closed spec fn kind(&self) -> SocketKind {
        self.kind
    }

    /// The bytes that have arrived and have not been read yet, oldest first.
    pub closed spec fn pending(&self) -> Seq<u8> {
        if self.cursor <= self.incoming.len() {
            self.incoming@.skip(self.cursor as int)
        } else {
            Seq::empty()
        }
    }

    /// The bytes that have been written and not yet collected, oldest first.
    pub closed spec fn written(&self) -> Seq<u8> {
        self.outgoing@
    }

    /// The failure of the underlying stream, if one was recorded.
    pub closed spec fn fault(&self) -> Option<std::io::ErrorKind> {
        self.fault
    }

    /// No more bytes are ever pending than a `usize` can count.
    pub proof fn lemma_pending_bounded(&self)
        ensures
            self.pending().len() <= usize::MAX,
    {
    }

    /// A fresh socket of the given kind with nothing pending and nothing written.
    pub fn new(kind: SocketKind) -> (sock: Socket)
        ensures
            sock.kind() == kind,
            sock.pending() == Seq::<u8>::empty(),
            sock.written() == Seq::<u8>::empty(),
            sock.fault() is None,
    {
        Socket { kind, incoming: Vec::new(), cursor: 0, outgoing: Vec::new(), fault: None }
    }

    /// A fresh TCP socket.
    pub fn tcp() -> (sock: Socket)
        ensures
            sock.kind() == SocketKind::Tcp,
            sock.pending() == Seq::<u8>::empty(),
            sock.written() == Seq::<u8>::empty(),
            sock.fault() is None,
    {
        Socket::new(SocketKind::Tcp)
    }

    /// A fresh Unix domain socket.
    pub fn uds() -> (sock: Socket)
        ensures
            sock.kind() == SocketKind::Uds,
            sock.pending() == Seq::<u8>::empty(),
            sock.written() == Seq::<u8>::empty(),
            sock.fault() is None,
    {
        Socket::new(SocketKind::Uds)
    }

    /// Which transport this is.
    pub fn get_kind(&self) -> (kind: SocketKind)
        ensures
            kind == self.kind(),
    {
        self.kind
    }

    /// The recorded failure, if any.
    pub fn get_fault(&self) -> (fault: Option<std::io::ErrorKind>)
        ensures
            fault == self.fault(),
    {
        self.fault
    }

    /// The pending bytes, without reading them.
    pub fn peek(&self) -> (bytes: &[u8])
        ensures
            bytes@ == self.pending(),
            self.pending().len() <= usize::MAX,
    {
        if self.cursor <= self.incoming.len() {
            slice_subrange(self.incoming.as_slice(), self.cursor, self.incoming.len())
        } else {
            slice_subrange(self.incoming.as_slice(), 0, 0)
        }
    }

    /// Hands over bytes that have arrived from the peer.
    pub fn receive(&mut self, data: &[u8])
        ensures
            final(self).pending() == old(self).pending() + data@,
            final(self).written() == old(self).written(),
            final(self).fault() == old(self).fault(),
            final(self).kind() == old(self).kind(),
    {
        if self.cursor > self.incoming.len() {
            self.cursor = self.incoming.len();
        }
        self.incoming.extend_from_slice(data);
    }

    /// Records that the underlying stream has failed.  From then on a write
    /// fails, and so does a read that finds too few bytes pending.
    pub fn fail(&mut self, kind: std::io::ErrorKind)
        ensures
            final(self).fault() == Some(kind),
            final(self).pending() == old(self).pending(),
            final(self).written() == old(self).written(),
            final(self).kind() == old(self).kind(),
    {
        self.fault = Some(kind);
    }

    /// Collects everything written since the last collection.
    pub fn take_written(&mut self) -> (bytes: Vec<u8>)
        ensures
            bytes@ == old(self).written(),
            final(self).written() == Seq::<u8>::empty(),
            final(self).pending() == old(self).pending(),
            final(self).fault() == old(self).fault(),
            final(self).kind() == old(self).kind(),
    {
        let mut bytes: Vec<u8> = Vec::new();
        bytes.append(&mut self.outgoing);
        bytes
    }

    /// Reads one byte.  `Ok(None)` is the end of the stream.
    pub fn read_byte(&mut self) -> (r: Result<Option<u8>, std::io::ErrorKind>)
        ensures
            old(self).pending().len() <= usize::MAX,
            final(self).written() == old(self).written(),
            final(self).fault() == old(self).fault(),
            final(self).kind() == old(self).kind(),
            old(self).pending().len() > 0 ==> r == Ok::<Option<u8>, std::io::ErrorKind>(
                Some(old(self).pending()[0]),
            ) && final(self).pending() == old(self).pending().skip(1),
            old(self).pending().len() == 0 ==> final(self).pending() == old(self).pending() && r
                == match old(self).fault() {
                Some(kind) => Err::<Option<u8>, std::io::ErrorKind>(kind),
                None => Ok(None),
            },
    {
        if self.cursor < self.incoming.len() {
            let b: u8 = self.incoming[self.cursor];
            self.cursor = self.cursor + 1;
            Ok(Some(b))
        } else {
            match self.fault {
                Some(kind) => Err(kind),
                None => Ok(None),
            }
        }
    }

    /// Appends up to `len` pending bytes to `buf` and reports how many there
    /// were.  Fewer than `len` come only when the stream has nothing more to
    /// give; if it has failed, that is an error.
    pub fn read_upto(&mut self, buf: &mut Vec<u8>, len: usize) -> (r: Result<
        usize,
        std::io::ErrorKind,
    >)
        ensures
            final(self).written() == old(self).written(),
            final(self).fault() == old(self).fault(),
            final(self).kind() == old(self).kind(),
            old(self).pending().len() >= len ==> r == Ok::<usize, std::io::ErrorKind>(len)
                && final(buf)@ == old(buf)@ + old(self).pending().take(len as int)
                && final(self).pending() == old(self).pending().skip(len as int),
            old(self).pending().len() < len ==> final(buf)@ == old(buf)@ + old(self).pending()
                && final(self).pending() == Seq::<u8>::empty() && r == match old(self).fault() {
                Some(kind) => Err::<usize, std::io::ErrorKind>(kind),
                None => Ok(old(self).pending().len() as usize),
            },
    {
        if self.cursor > self.incoming.len() {
            self.cursor = self.incoming.len();
        }
        let avail: usize = self.incoming.len() - self.cursor;
        if avail >= len {
            let chunk = slice_subrange(self.incoming.as_slice(), self.cursor, self.cursor + len);
            buf.extend_from_slice(chunk);
            self.cursor = self.cursor + len;
            Ok(len)
        } else {
            if avail > 0 {
                let chunk = slice_subrange(
                    self.incoming.as_slice(),
                    self.cursor,
                    self.incoming.len(),
                );
                buf.extend_from_slice(chunk);
            }
            self.cursor = self.incoming.len();
            match self.fault {
                Some(kind) => Err(kind),
                None => Ok(avail),
            }
        }
    }

    /// Writes all of `data`, or nothing if the stream has failed.
    pub fn write_all(&mut self, data: &[u8]) -> (r: Result<(), std::io::ErrorKind>)
        ensures
            final(self).pending() == old(self).pending(),
            final(self).fault() == old(self).fault(),
            final(self).kind() == old(self).kind(),
            match old(self).fault() {
                Some(kind) => r == Err::<(), std::io::ErrorKind>(kind) && final(self).written()
                    == old(self).written(),
                None => r is Ok && final(self).written() == old(self).written() + data@,
            },
    {
        match self.fault {
            Some(kind) => Err(kind),
            None => {
                self.outgoing.extend_from_slice(data);
                Ok(())
            },
        }
    }
}

} // verus!
