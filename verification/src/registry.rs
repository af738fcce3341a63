//! Bounded connection registry: token allocation, lookup, and the
//! per-event dispatch decisions of the event loop.
//!
//! The registry maps each live token to its connection. Tokens are slot
//! indices in `[1, MAX_CONN)` — token `LISTENER_TOKEN` is reserved for the
//! listening socket — so no two live connections can ever share one. A
//! token is issued only from the free slots, and allocation is refused
//! when every slot is taken: the registry never holds more than
//! `MAX_CONN - 1` connections and never overwrites a live one.
//!
//! The caller (the unverified event loop around this crate) owns the
//! poller and performs the socket I/O; for each readiness event it asks
//! the registry what the affected connection wants, does the one read or
//! write, and reports the outcome back through `on_readable`,
//! `on_writable` or `on_hangup`, in that order when one event carries
//! several readiness kinds.

use vstd::prelude::*;
use vstd::set::axiom_set_remove_len;
use vstd::set_lib::lemma_int_range;
use vstd::set_lib::lemma_len_subset;
use vstd::set_lib::set_int_range;

use crate::connection::ConnModel;
use crate::connection::ConnState;
use crate::connection::Connection;
use crate::Interest;
use crate::Token;
use crate::LISTENER_TOKEN;
use crate::MAX_CONN;

verus! {

/// A sequence of tokens in strictly increasing order — hence pairwise
/// distinct.
pub open spec fn strictly_increasing(ts: Seq<Token>) -> bool {
    forall|k1: int, k2: int|
        0 <= k1 < k2 < ts.len() ==> (#[trigger] ts[k1]).0 < (#[trigger] ts[k2]).0
}

/// The connection registry: one slot per token. A live connection sits in
/// the slot its token names; the listener's slot stays empty.
pub struct Registry<S> {
    slots: Vec<Option<Connection<S>>>,
}

impl<S> View for Registry<S> {
    type V = Map<int, ConnModel>;

    closed spec fn view(&self) -> Map<int, ConnModel> {
        Map::new(
            |i: int| 0 <= i < MAX_CONN && self.slots@[i] is Some,
            |i: int| self.slots@[i]->0@,
        )
    }
}

impl<S> Registry<S> {
    /// Well-formedness: one slot per token, the listener's slot empty,
    /// every live connection internally consistent.
    pub closed spec fn wf(self) -> bool {
        &&& self.slots@.len() == MAX_CONN
        &&& self.slots@[LISTENER_TOKEN as int] is None
        &&& forall|i: int|
            0 <= i < MAX_CONN ==> ((#[trigger] self.slots@[i]) is Some
                ==> self.slots@[i]->0@.inv())
    }

    /// Whether token `i` names a live connection.
    pub open spec fn live(self, i: int) -> bool {
        self@.dom().contains(i)
    }

    /// Whether the connection at `i` is live and waiting for bytes from
    /// the client.
    pub open spec fn wants_read_spec(self, i: int) -> bool {
        self.live(i) && self@[i].state is AwaitingRead
    }

    /// Whether the connection at `i` is live and holding bytes for the
    /// socket to accept.
    pub open spec fn wants_write_spec(self, i: int) -> bool {
        self.live(i) && self@[i].state is AwaitingWrite
    }

    /// Whether every token is taken, so that allocation must refuse.
    pub open spec fn full(self) -> bool {
        forall|i: int| 1 <= i < MAX_CONN ==> self.live(i)
    }

    /// The socket handle owned by the connection at `i`.
    pub closed spec fn sock_at(self, i: int) -> S {
        self.slots@[i]->0.sock_spec()
    }

    /// An empty registry: no live connections.
    pub fn new() -> (r: Registry<S>)
        ensures
            r.wf(),
            r@ == Map::<int, ConnModel>::empty(),
    {
        let mut slots: Vec<Option<Connection<S>>> = Vec::new();
        let mut i: usize = 0;
        while i < MAX_CONN
            invariant
                i <= MAX_CONN,
                slots@.len() == i,
                forall|j: int| 0 <= j < i ==> (#[trigger] slots@[j]) is None,
            decreases MAX_CONN - i,
        {
            slots.push(None);
            i = i + 1;
        }
        let r = Registry { slots };
        proof {
            assert(r@ =~= Map::<int, ConnModel>::empty());
        }
        r
    }

    /// Issues the lowest free token, or refuses — never a token that a
    /// live connection holds, so no live entry can be overwritten. The
    /// token binds nothing until `install` is called with it.
    pub fn allocate(&self) -> (r: Option<Token>)
        requires
            self.wf(),
        ensures
            r is None <==> self.full(),
            r matches Some(t) ==> {
                &&& 1 <= t.0 < MAX_CONN
                &&& !self.live(t.0 as int)
                &&& forall|j: int| 1 <= j < t.0 ==> self.live(j)
            },
    {
        let mut i: usize = 1;
        while i < MAX_CONN
            invariant
                self.wf(),
                1 <= i <= MAX_CONN,
                forall|j: int| 1 <= j < i ==> self.live(j),
            decreases MAX_CONN - i,
        {
            if self.slots[i].is_none() {
                proof {
                    assert(!self.live(i as int));
                }
                return Some(Token(i));
            }
            i = i + 1;
        }
        None
    }

    /// Binds a fresh connection on socket `sock` to the free token `t`:
    /// the accept path of the event loop. The new connection awaits its
    /// first read; every other entry is untouched.
    pub fn install(&mut self, t: Token, sock: S)
        requires
            old(self).wf(),
            1 <= t.0 < MAX_CONN,
            !old(self).live(t.0 as int),
        ensures
            final(self).wf(),
            final(self)@ == old(self)@.insert(t.0 as int, ConnModel::init()),
            final(self).sock_at(t.0 as int) == sock,
            forall|j: int|
                j != t.0 && old(self).live(j) ==> final(self).sock_at(j) == old(self).sock_at(j),
    {
        let c = Connection::new(sock);
        self.slots.set(t.0, Some(c));
        proof {
            assert(self@ =~= old(self)@.insert(t.0 as int, ConnModel::init()));
        }
    }

    /// Whether token `t` names a live connection.
    pub fn is_live(&self, t: Token) -> (r: bool)
        requires
            self.wf(),
        ensures
            r == self.live(t.0 as int),
    {
        if t.0 >= MAX_CONN {
            return false;
        }
        self.slots[t.0].is_some()
    }

    /// The state of the connection at `t`, or nothing for a dead token.
    pub fn state_of(&self, t: Token) -> (r: Option<ConnState>)
        requires
            self.wf(),
        ensures
            r is Some <==> self.live(t.0 as int),
            r matches Some(s) ==> s == self@[t.0 as int].state,
    {
        if t.0 >= MAX_CONN {
            return None;
        }
        match &self.slots[t.0] {
            Some(c) => Some(c.state()),
            None => None,
        }
    }

    /// How many bytes the connection at `t` still owes its client; zero
    /// for a dead token.
    pub fn pending_len(&self, t: Token) -> (n: usize)
        requires
            self.wf(),
        ensures
            self.live(t.0 as int) ==> n == self@[t.0 as int].buffer.len(),
            !self.live(t.0 as int) ==> n == 0,
    {
        if t.0 >= MAX_CONN {
            return 0;
        }
        match &self.slots[t.0] {
            Some(c) => c.buffered_len(),
            None => 0,
        }
    }

    /// A borrow of the socket handle at `t`, for the caller's I/O.
    pub fn socket(&self, t: Token) -> (r: Option<&S>)
        requires
            self.wf(),
        ensures
            r is Some <==> self.live(t.0 as int),
            r matches Some(s) ==> *s == self.sock_at(t.0 as int),
    {
        if t.0 >= MAX_CONN {
            return None;
        }
        match &self.slots[t.0] {
            Some(c) => Some(c.socket()),
            None => None,
        }
    }

    /// Whether the event loop should read on a readable event for `t` —
    /// false for a dead token (a stale notification, skipped) and for a
    /// connection busy writing.
    pub fn wants_read(&self, t: Token) -> (r: bool)
        requires
            self.wf(),
        ensures
            r == self.wants_read_spec(t.0 as int),
    {
        if t.0 >= MAX_CONN {
            return false;
        }
        match &self.slots[t.0] {
            Some(c) => c.state() == ConnState::AwaitingRead,
            None => false,
        }
    }

    /// Whether the event loop should write on a writable event for `t`.
    pub fn wants_write(&self, t: Token) -> (r: bool)
        requires
            self.wf(),
        ensures
            r == self.wants_write_spec(t.0 as int),
    {
        if t.0 >= MAX_CONN {
            return false;
        }
        match &self.slots[t.0] {
            Some(c) => c.state() == ConnState::AwaitingWrite,
            None => false,
        }
    }

    /// A copy of the bytes the connection at `t` wants written: what the
    /// caller should offer to the socket.
    pub fn outgoing(&self, t: Token) -> (out: Vec<u8>)
        requires
            self.wf(),
            self.wants_write_spec(t.0 as int),
        ensures
            out@ == self@[t.0 as int].buffer,
    {
        match &self.slots[t.0] {
            Some(c) => c.outgoing(),
            None => {
                proof {
                    assert(false);
                }
                Vec::new()
            },
        }
    }

    /// Dispatch of a readable event: the caller drew `data` from the
    /// socket with one non-blocking read and hands it over. The bytes
    /// join the connection's outbound buffer; if any arrived, the
    /// returned interest asks the caller to watch the socket for
    /// writability. Every other entry is untouched.
    pub fn on_readable(&mut self, t: Token, data: &[u8]) -> (r: Option<Interest>)
        requires
            old(self).wf(),
            old(self).wants_read_spec(t.0 as int),
        ensures
            final(self).wf(),
            final(self)@ == old(self)@.insert(
                t.0 as int,
                old(self)@[t.0 as int].after_read(data@),
            ),
            r == (if data@.len() > 0 {
                Some(Interest::Writable)
            } else {
                None::<Interest>
            }),
            forall|j: int|
                old(self).live(j) ==> final(self).sock_at(j) == old(self).sock_at(j),
    {
        let mut slot: Option<Connection<S>> = None;
        self.slots.set_and_swap(t.0, &mut slot);
        match slot {
            Some(mut c) => {
                let reaction = c.on_read(data);
                self.slots.set(t.0, Some(c));
                proof {
                    assert(self@ =~= old(self)@.insert(
                        t.0 as int,
                        old(self)@[t.0 as int].after_read(data@),
                    ));
                }
                reaction
            },
            None => {
                proof {
                    assert(false);
                }
                None
            },
        }
    }

    /// Dispatch of a writable event: the caller offered the buffered
    /// bytes to the socket and `n` of them were accepted — zero when the
    /// write would have blocked, which leaves the connection unchanged
    /// and still awaiting writability. Only a complete flush returns the
    /// connection to reading, with an interest asking the caller to watch
    /// for readability again. Every other entry is untouched.
    pub fn on_writable(&mut self, t: Token, n: usize) -> (r: Option<Interest>)
        requires
            old(self).wf(),
            old(self).wants_write_spec(t.0 as int),
            n <= old(self)@[t.0 as int].buffer.len(),
        ensures
            final(self).wf(),
            final(self)@ == old(self)@.insert(
                t.0 as int,
                old(self)@[t.0 as int].after_write(n as int),
            ),
            r == (if n == old(self)@[t.0 as int].buffer.len() {
                Some(Interest::Readable)
            } else {
                None::<Interest>
            }),
            forall|j: int|
                old(self).live(j) ==> final(self).sock_at(j) == old(self).sock_at(j),
    {
        let mut slot: Option<Connection<S>> = None;
        self.slots.set_and_swap(t.0, &mut slot);
        match slot {
            Some(mut c) => {
                let reaction = c.on_write(n);
                self.slots.set(t.0, Some(c));
                proof {
                    assert(self@ =~= old(self)@.insert(
                        t.0 as int,
                        old(self)@[t.0 as int].after_write(n as int),
                    ));
                }
                reaction
            },
            None => {
                proof {
                    assert(false);
                }
                None
            },
        }
    }

    /// Dispatch of a hangup event: the terminal transition. The token's
    /// entry leaves the registry and the closed connection is handed back
    /// so the caller can deregister and release its socket; the token is
    /// free for reuse. A dead token — a stale or duplicate notification —
    /// is skipped without effect.
    pub fn on_hangup(&mut self, t: Token) -> (r: Option<Connection<S>>)
        requires
            old(self).wf(),
        ensures
            final(self).wf(),
            final(self)@ == old(self)@.remove(t.0 as int),
            !final(self).live(t.0 as int),
            r is Some <==> old(self).live(t.0 as int),
            r matches Some(c) ==> {
                &&& c@ == (ConnModel { state: ConnState::Closed, ..old(self)@[t.0 as int] })
                &&& c.sock_spec() == old(self).sock_at(t.0 as int)
            },
            forall|j: int|
                j != t.0 && old(self).live(j) ==> final(self).sock_at(j) == old(self).sock_at(j),
    {
        if t.0 >= MAX_CONN {
            proof {
                assert(self@ =~= old(self)@.remove(t.0 as int));
            }
            return None;
        }
        let mut slot: Option<Connection<S>> = None;
        self.slots.set_and_swap(t.0, &mut slot);
        match slot {
            Some(mut c) => {
                c.close();
                proof {
                    assert(self@ =~= old(self)@.remove(t.0 as int));
                }
                Some(c)
            },
            None => {
                proof {
                    assert(self@ =~= old(self)@.remove(t.0 as int));
                }
                None
            },
        }
    }

    /// The tokens of all live connections, in strictly increasing order:
    /// a complete, duplicate-free enumeration of the registry.
    pub fn tokens(&self) -> (ts: Vec<Token>)
        requires
            self.wf(),
        ensures
            strictly_increasing(ts@),
            forall|k: int| 0 <= k < ts@.len() ==> self.live((#[trigger] ts@[k]).0 as int),
            forall|j: int|
                self.live(j) ==> exists|k: int| 0 <= k < ts@.len() && (#[trigger] ts@[k]).0 == j,
    {
        let mut ts: Vec<Token> = Vec::new();
        let mut i: usize = 0;
        while i < MAX_CONN
            invariant
                self.wf(),
                i <= MAX_CONN,
                strictly_increasing(ts@),
                forall|k: int|
                    0 <= k < ts@.len() ==> (#[trigger] ts@[k]).0 < i && self.live(ts@[k].0 as int),
                forall|j: int|
                    0 <= j < i && self.live(j) ==> exists|k: int|
                        0 <= k < ts@.len() && (#[trigger] ts@[k]).0 == j,
            decreases MAX_CONN - i,
        {
            if self.slots[i].is_some() {
                let ghost pre = ts@;
                ts.push(Token(i));
                proof {
                    assert forall|j: int| 0 <= j < i + 1 && self.live(j) implies exists|k: int|
                        0 <= k < ts@.len() && (#[trigger] ts@[k]).0 == j by {
                        if j == i {
                            assert(ts@[ts@.len() - 1].0 == j);
                        } else {
                            let k = choose|k: int| 0 <= k < pre.len() && (#[trigger] pre[k]).0 == j;
                            assert(ts@[k] == pre[k]);
                            assert(ts@[k].0 == j);
                        }
                    }
                }
            } else {
                proof {
                    assert(!self.live(i as int));
                }
            }
            i = i + 1;
        }
        ts
    }
}

/// In a well-formed registry every live token lies in `[1, MAX_CONN)`:
/// the listener's token is never a connection's, and no token leaves the
/// bounded space.
pub proof fn lemma_live_token_in_range<S>(r: Registry<S>, i: int)
    requires
        r.wf(),
        r.live(i),
    ensures
        1 <= i < MAX_CONN,
        i != LISTENER_TOKEN,
{
}

/// Every live connection of a well-formed registry satisfies the
/// connection invariant — so the echo law `lemma_echo_correct` applies to
/// each entry of the registry.
pub proof fn lemma_live_conn_inv<S>(r: Registry<S>, i: int)
    requires
        r.wf(),
        r.live(i),
    ensures
        r@[i].inv(),
{
}

/// Law (bounded occupancy): a well-formed registry never holds more than
/// `MAX_CONN - 1` live connections — one slot of the token space is the
/// listener's and stays empty.
pub proof fn lemma_bounded_occupancy<S>(r: Registry<S>)
    requires
        r.wf(),
    ensures
        r@.dom().finite(),
        r@.dom().len() <= MAX_CONN - 1,
{
    let dom = r@.dom();
    let range = set_int_range(1, MAX_CONN as int);
    assert(dom.subset_of(range));
    lemma_int_range(1, MAX_CONN as int);
    lemma_len_subset(dom, range);
}

/// Law (bounded occupancy, sharp form): the registry is full — so that
/// `allocate` refuses the next connection — exactly when it stands at the
/// bound of `MAX_CONN - 1` live connections, never earlier and never
/// later.
pub proof fn lemma_full_iff_at_bound<S>(r: Registry<S>)
    requires
        r.wf(),
    ensures
        r.full() <==> r@.dom().len() == MAX_CONN - 1,
{
    let dom = r@.dom();
    let range = set_int_range(1, MAX_CONN as int);
    assert(dom.subset_of(range));
    lemma_int_range(1, MAX_CONN as int);
    lemma_len_subset(dom, range);
    if r.full() {
        assert forall|x: int| range.contains(x) implies dom.contains(x) by {
            assert(r.live(x));
        }
        assert(dom =~= range);
    } else {
        let i = choose|i: int| 1 <= i < MAX_CONN && !r.live(i);
        assert(dom.subset_of(range.remove(i)));
        axiom_set_remove_len(range, i);
        lemma_len_subset(dom, range.remove(i));
    }
}

/// Law (token uniqueness): a strictly increasing enumeration — such as
/// the one `Registry::tokens` returns — never lists one token twice: no
/// two live entries of the registry share a token.
pub proof fn lemma_tokens_distinct(ts: Seq<Token>, k1: int, k2: int)
    requires
        strictly_increasing(ts),
        0 <= k1 < ts.len(),
        0 <= k2 < ts.len(),
        k1 != k2,
    ensures
        ts[k1] != ts[k2],
{
}

} // verus!
