//! Per-connection read/write state machine.
//!
//! A connection owns one socket handle plus an outbound byte buffer. It
//! starts in `AwaitingRead`; a read that yields at least one byte moves it
//! to `AwaitingWrite`; flushing the whole buffer moves it back to
//! `AwaitingRead`; a hangup closes it. The buffer holds exactly the bytes
//! that were received but not yet written back, so the connection echoes
//! every byte it receives, in order.

use vstd::prelude::*;

use crate::Interest;

verus! {

/// Interest state of a connection.
#[derive(Clone, Copy, PartialEq, Eq, Structural, Debug)]
pub enum ConnState {
    /// Waiting for the client to send bytes; the outbound buffer is empty.
    AwaitingRead,
    /// Holding unwritten bytes; waiting for the socket to accept them.
    AwaitingWrite,
    /// Terminal: the connection was hung up or torn down.
    Closed,
}

/// Mathematical model of a connection: its state, the bytes still owed to
/// the client, and the whole history of bytes received and echoed back.
#[verifier::ext_equal]
pub ghost struct ConnModel {
    pub state: ConnState,
    /// Bytes received but not yet written back, oldest first.
    pub buffer: Seq<u8>,
    /// Every byte ever received on this connection, in order.
    pub received: Seq<u8>,
    /// Every byte ever written back to the client, in order.
    pub echoed: Seq<u8>,
}

impl ConnModel {
    /// Invariant of a connection: while waiting to read the buffer is
    /// empty, and what was echoed followed by what is still buffered is
    /// exactly what was received.
    pub open spec fn inv(self) -> bool {
        &&& (self.state is AwaitingRead ==> self.buffer.len() == 0)
        &&& self.echoed + self.buffer == self.received
    }

    /// Model of a fresh connection, just accepted.
    pub open spec fn init() -> ConnModel {
        ConnModel {
            state: ConnState::AwaitingRead,
            buffer: Seq::empty(),
            received: Seq::empty(),
            echoed: Seq::empty(),
        }
    }

    /// The read transition: `data` arrived from the client. The bytes are
    /// appended to the buffer; if any arrived, the connection turns to
    /// writing.
    pub open spec fn after_read(self, data: Seq<u8>) -> ConnModel {
        ConnModel {
            state: if data.len() > 0 {
                ConnState::AwaitingWrite
            } else {
                self.state
            },
            buffer: self.buffer + data,
            received: self.received + data,
            echoed: self.echoed,
        }
    }

    /// The write transition: the socket accepted `n` of the buffered
    /// bytes. They move from the buffer to the echoed history; only a
    /// complete flush returns the connection to reading.
    pub open spec fn after_write(self, n: int) -> ConnModel {
        ConnModel {
            state: if n == self.buffer.len() {
                ConnState::AwaitingRead
            } else {
                self.state
            },
            buffer: self.buffer.skip(n),
            received: self.received,
            echoed: self.echoed + self.buffer.take(n),
        }
    }
}

/// One client connection: its socket handle, the bytes awaiting write, and
/// its interest state. `S` is the caller's socket handle type; this crate
/// never looks inside it.
pub struct Connection<S> {
    sock: S,
    buffer: Vec<u8>,
    state: ConnState,
    received: Ghost<Seq<u8>>,
    echoed: Ghost<Seq<u8>>,
}

impl<S> View for Connection<S> {
    type V = ConnModel;

    closed spec fn view(&self) -> ConnModel {
        ConnModel {
            state: self.state,
            buffer: self.buffer@,
            received: self.received@,
            echoed: self.echoed@,
        }
    }
}

impl<S> Connection<S> {
    /// The socket handle this connection owns.
    pub closed spec fn sock_spec(self) -> S {
        self.sock
    }

    /// A connection just accepted on socket `sock`: awaiting its first
    /// read, with nothing buffered.
    pub fn new(sock: S) -> (c: Connection<S>)
        ensures
            c@ == ConnModel::init(),
            c.sock_spec() == sock,
    {
        let c = Connection {
            sock,
            buffer: Vec::new(),
            state: ConnState::AwaitingRead,
            received: Ghost(Seq::empty()),
            echoed: Ghost(Seq::empty()),
        };
        proof {
            assert(c@ =~= ConnModel::init());
        }
        c
    }

    /// Current interest state.
    pub fn state(&self) -> (s: ConnState)
        ensures
            s == self@.state,
    {
        self.state
    }

    /// How many bytes are buffered, still owed to the client.
    pub fn buffered_len(&self) -> (n: usize)
        ensures
            n == self@.buffer.len(),
    {
        self.buffer.len()
    }

    /// A borrow of the socket handle, for the caller's I/O.
    pub fn socket(&self) -> (s: &S)
        ensures
            *s == self.sock_spec(),
    {
        &self.sock
    }

    /// Gives the socket handle back to the caller, who releases it.
    pub fn into_socket(self) -> (s: S)
        ensures
            s == self.sock_spec(),
    {
        self.sock
    }

    /// A copy of the buffered bytes, oldest first: what the caller should
    /// offer to the socket on the next write.
    pub fn outgoing(&self) -> (out: Vec<u8>)
        ensures
            out@ == self@.buffer,
    {
        let mut out: Vec<u8> = Vec::new();
        let mut i: usize = 0;
        while i < self.buffer.len()
            invariant
                i <= self.buffer.len(),
                out@ == self.buffer@.take(i as int),
            decreases self.buffer.len() - i,
        {
            out.push(self.buffer[i]);
            proof {
                assert(out@ =~= self.buffer@.take(i + 1 as int));
            }
            i = i + 1;
        }
        proof {
            assert(out@ =~= self@.buffer);
        }
        out
    }

    /// The read transition of the state machine: `data` is what one
    /// non-blocking read returned. Appends the bytes to the outbound
    /// buffer; if any arrived, the connection now awaits writability and
    /// the caller must watch the socket for it. Zero bytes is a no-op for
    /// this call, not end-of-stream.
    pub fn on_read(&mut self, data: &[u8]) -> (r: Option<Interest>)
        requires
            old(self)@.inv(),
            old(self)@.state is AwaitingRead,
        ensures
            final(self)@.inv(),
            final(self)@ == old(self)@.after_read(data@),
            final(self).sock_spec() == old(self).sock_spec(),
            r == (if data@.len() > 0 {
                Some(Interest::Writable)
            } else {
                None::<Interest>
            }),
    {
        let mut i: usize = 0;
        while i < data.len()
            invariant
                i <= data.len(),
                self.buffer@ == old(self).buffer@ + data@.take(i as int),
                self.state == old(self).state,
                self.sock == old(self).sock,
                self.received == old(self).received,
                self.echoed == old(self).echoed,
            decreases data.len() - i,
        {
            self.buffer.push(data[i]);
            proof {
                assert(self.buffer@ =~= old(self).buffer@ + data@.take(i + 1 as int));
            }
            i = i + 1;
        }
        self.received = Ghost(self.received@ + data@);
        if data.len() > 0 {
            self.state = ConnState::AwaitingWrite;
            proof {
                assert(data@.take(data@.len() as int) =~= data@);
                assert(self@ =~= old(self)@.after_read(data@));
            }
            Some(Interest::Writable)
        } else {
            proof {
                assert(data@.take(0) =~= Seq::<u8>::empty());
                assert(self@ =~= old(self)@.after_read(data@));
            }
            None
        }
    }

    /// The write transition of the state machine: the socket accepted `n`
    /// of the buffered bytes (`n == 0` when the write would have blocked).
    /// Drops exactly those bytes from the buffer; only a complete flush
    /// returns the connection to reading and asks the caller to watch for
    /// readability again. A partial write leaves the remainder intact, to
    /// be retried on the next writable event.
    pub fn on_write(&mut self, n: usize) -> (r: Option<Interest>)
        requires
            old(self)@.inv(),
            old(self)@.state is AwaitingWrite,
            n <= old(self)@.buffer.len(),
        ensures
            final(self)@.inv(),
            final(self)@ == old(self)@.after_write(n as int),
            final(self).sock_spec() == old(self).sock_spec(),
            r == (if n == old(self)@.buffer.len() {
                Some(Interest::Readable)
            } else {
                None::<Interest>
            }),
    {
        let len: usize = self.buffer.len();
        let mut rest: Vec<u8> = Vec::new();
        let mut i: usize = n;
        while i < len
            invariant
                n <= i <= len,
                len == self.buffer@.len(),
                rest@ == self.buffer@.subrange(n as int, i as int),
                self.buffer@ == old(self).buffer@,
                self.state == old(self).state,
                self.sock == old(self).sock,
                self.received == old(self).received,
                self.echoed == old(self).echoed,
            decreases len - i,
        {
            rest.push(self.buffer[i]);
            proof {
                assert(rest@ =~= self.buffer@.subrange(n as int, i + 1 as int));
            }
            i = i + 1;
        }
        proof {
            assert(rest@ =~= self.buffer@.skip(n as int));
        }
        self.echoed = Ghost(self.echoed@ + self.buffer@.take(n as int));
        self.buffer = rest;
        proof {
            assert(self@.echoed + self@.buffer =~= old(self)@.received);
        }
        if n == len {
            self.state = ConnState::AwaitingRead;
            proof {
                assert(self@ =~= old(self)@.after_write(n as int));
            }
            Some(Interest::Readable)
        } else {
            proof {
                assert(self@ =~= old(self)@.after_write(n as int));
            }
            None
        }
    }

    /// The hangup transition: terminal. The buffer is left as it stands;
    /// bytes never flushed are lost with the connection, as the client is
    /// gone.
    pub fn close(&mut self)
        ensures
            final(self)@ == (ConnModel { state: ConnState::Closed, ..old(self)@ }),
            final(self).sock_spec() == old(self).sock_spec(),
    {
        self.state = ConnState::Closed;
        proof {
            assert(self@ =~= (ConnModel { state: ConnState::Closed, ..old(self)@ }));
        }
    }
}

/// Law (echo correctness): on a well-formed connection what was echoed is
/// always a prefix of what was received, and once the buffer is empty the
/// two are equal — every received byte sequence is written back verbatim,
/// in order.
pub proof fn lemma_echo_correct(m: ConnModel)
    requires
        m.inv(),
    ensures
        m.echoed.is_prefix_of(m.received),
        m.buffer.len() == 0 ==> m.echoed == m.received,
{
    assert(m.received.take(m.echoed.len() as int) =~= m.echoed);
    if m.buffer.len() == 0 {
        assert(m.echoed =~= m.received);
    }
}

/// Law (echo correctness across one full cycle): reading `data` and then
/// flushing the whole buffer echoes exactly the bytes that stood in the
/// buffer followed by `data`, and returns the connection to reading.
pub proof fn lemma_read_then_flush(m: ConnModel, data: Seq<u8>)
    requires
        m.inv(),
        m.state is AwaitingRead,
        data.len() > 0,
    ensures
        m.after_read(data).inv(),
        m.after_read(data).after_write(data.len() as int) == (ConnModel {
            state: ConnState::AwaitingRead,
            buffer: Seq::empty(),
            received: m.received + data,
            echoed: m.echoed + data,
        }),
{
    let r = m.after_read(data);
    assert(r.buffer =~= data);
    assert(r.after_write(data.len() as int).buffer =~= Seq::<u8>::empty());
    assert(r.after_write(data.len() as int).echoed =~= m.echoed + data);
    assert(r.after_write(data.len() as int) =~= (ConnModel {
        state: ConnState::AwaitingRead,
        buffer: Seq::<u8>::empty(),
        received: m.received + data,
        echoed: m.echoed + data,
    }));
}

/// Law (non-blocking invariant): a write of zero bytes — one that would
/// have blocked — changes nothing: the connection stays in `AwaitingWrite`
/// with its buffer intact. A later write that takes the whole remainder
/// echoes exactly the buffered bytes: none lost, none duplicated.
pub proof fn lemma_would_block_then_resume(m: ConnModel, n: int)
    requires
        m.inv(),
        m.state is AwaitingWrite,
        0 < m.buffer.len(),
        0 <= n <= m.buffer.len(),
    ensures
        m.after_write(0) == m,
        m.after_write(n).inv(),
        m.after_write(n).after_write(m.buffer.len() - n).echoed == m.echoed + m.buffer,
        m.after_write(n).after_write(m.buffer.len() - n).buffer == Seq::<u8>::empty(),
        m.after_write(n).after_write(m.buffer.len() - n).state is AwaitingRead,
{
    assert(m.after_write(0) =~= m);
    let p = m.after_write(n);
    assert(p.echoed + p.buffer =~= m.echoed + m.buffer);
    let q = p.after_write(m.buffer.len() - n);
    assert(q.buffer =~= Seq::<u8>::empty());
    assert(q.echoed =~= p.echoed + p.buffer);
    assert(q.echoed =~= m.echoed + m.buffer);
}

} // verus!
