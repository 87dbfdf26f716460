//! The switchboard: a registry mapping bound addresses to the connection
//! queues of live listeners, and the allocator of automatically assigned
//! ports.
//!
//! A listener is created by [`MemoryListener::bind`], which records the
//! resolved address here together with the sending half of a fresh
//! connection queue; [`MemorySocket::connect`] looks the address up and
//! pushes one half of a new endpoint pair onto that queue. At most one
//! listener is bound to an address at a time, and unbinding frees the
//! address for reuse.

use vstd::prelude::*;

use crate::addr::Address;
use crate::chan::RecvStep;
use crate::chan::recv_connection;
use crate::chan::try_recv_step;
use crate::poll::Poll;
use crate::socket::MemorySocket;
use crate::SocketError;

verus! {

/// The highest port automatic assignment hands out. The probe cursor wraps
/// from here back to port 1, never to the sentinel 0.
pub const TOP_PORT: u16 = 65534;

/// One bound address and the sending half of its listener's connection
/// queue.
struct Entry {
    address: Address,
    sender: flume::Sender<MemorySocket>,
}

/// The address registry and port allocator. Every bind, connect and unbind
/// goes through one of these; keeping a single instance per process makes
/// it the process-wide switchboard.
pub struct SwitchBoard {
    entries: Vec<Entry>,
    next_port: u16,
}

/// What a successful bind does to the registry: the resolved address was
/// free, is now bound, and no other address changed.
pub open spec fn bind_inserts(pre: SwitchBoard, post: SwitchBoard, a: Address) -> bool {
    &&& !pre.bound(a)
    &&& post.bound(a)
    &&& forall|x: Address| x != a ==> #[trigger] post.bound(x) == pre.bound(x)
}

/// What an unbind does to the registry: the address is no longer bound, and
/// no other address changed.
pub open spec fn unbind_removes(pre: SwitchBoard, post: SwitchBoard, a: Address) -> bool {
    &&& !post.bound(a)
    &&& forall|x: Address| x != a ==> #[trigger] post.bound(x) == pre.bound(x)
}

impl SwitchBoard {
    /// True when a listener's queue is recorded under this address.
    pub closed spec fn bound(self, a: Address) -> bool {
        exists|i: int| 0 <= i < self.entries@.len() && self.entries@[i].address == a
    }

    /// The port where the next automatic assignment starts probing.
    pub closed spec fn cursor(self) -> u16 {
        self.next_port
    }

    /// The registry's invariant: one entry per address, and the probe
    /// cursor inside the assignable range.
    pub closed spec fn wf(self) -> bool {
        &&& forall|i: int, j: int|
            0 <= i < j < self.entries@.len() ==> #[trigger] self.entries@[i].address != #[trigger] self.entries@[j].address
        &&& 1 <= self.next_port <= TOP_PORT
    }

    /// True when an explicit bind to this address is owed success: the
    /// address is specified, asks for a concrete port, and is free.
    pub open spec fn bindable(self, a: Address) -> bool {
        &&& !a.spec_is_unspecified()
        &&& a.port != 0
        &&& !self.bound(a)
    }

    /// An empty switchboard: nothing bound, probing starts at port 1.
    pub fn new() -> (b: SwitchBoard)
        ensures
            b.wf(),
            forall|a: Address| !b.bound(a),
            b.cursor() == 1,
    {
        SwitchBoard { entries: Vec::new(), next_port: 1 }
    }

    /// Whether `a` is currently bound.
    fn contains_addr(&self, a: Address) -> (r: bool)
        ensures
            r == self.bound(a),
    {
        let mut i: usize = 0;
        while i < self.entries.len()
            invariant
                i <= self.entries@.len(),
                forall|j: int| 0 <= j < i ==> #[trigger] self.entries@[j].address != a,
            decreases self.entries@.len() - i,
        {
            if self.entries[i].address == a {
                return true;
            }
            i = i + 1;
        }
        false
    }

    /// The sending half of the connection queue bound to `a`, if any.
    pub(crate) fn find_sender(&self, a: Address) -> (r: Option<&flume::Sender<MemorySocket>>)
        ensures
            r is Some <==> self.bound(a),
    {
        let mut i: usize = 0;
        while i < self.entries.len()
            invariant
                i <= self.entries@.len(),
                forall|j: int| 0 <= j < i ==> #[trigger] self.entries@[j].address != a,
            decreases self.entries@.len() - i,
        {
            if self.entries[i].address == a {
                return Some(&self.entries[i].sender);
            }
            i = i + 1;
        }
        None
    }

    /// Record a fresh binding of `address`.
    fn insert_entry(&mut self, address: Address, sender: flume::Sender<MemorySocket>)
        requires
            old(self).wf(),
            !old(self).bound(address),
        ensures
            final(self).wf(),
            bind_inserts(*old(self), *final(self), address),
            final(self).cursor() == old(self).cursor(),
    {
        self.entries.push(Entry { address, sender });
        proof {
            let pre = old(self).entries@;
            let post = self.entries@;
            assert(post[pre.len() as int].address == address);
            assert forall|x: Address| x != address implies #[trigger] self.bound(x) == old(
                self,
            ).bound(x) by {
                if self.bound(x) {
                    let i = choose|i: int| 0 <= i < post.len() && post[i].address == x;
                    assert(i < pre.len() && pre[i].address == x);
                }
                if old(self).bound(x) {
                    let i = choose|i: int| 0 <= i < pre.len() && pre[i].address == x;
                    assert(post[i].address == x);
                }
            }
            assert forall|i: int, j: int| 0 <= i < j < post.len() implies #[trigger] post[i].address
                != #[trigger] post[j].address by {
                if j == pre.len() {
                    assert(!old(self).bound(address));
                    assert(pre[i].address != address);
                }
            }
        }
    }

    /// The position of the entry bound to `address`, if any.
    fn index_of(&self, address: Address) -> (r: Option<usize>)
        ensures
            r matches Some(i) ==> (i < self.entries@.len() && self.entries@[i as int].address
                == address),
            r is None ==> !self.bound(address),
    {
        let mut i: usize = 0;
        while i < self.entries.len()
            invariant
                i <= self.entries@.len(),
                forall|j: int| 0 <= j < i ==> #[trigger] self.entries@[j].address != address,
            decreases self.entries@.len() - i,
        {
            if self.entries[i].address == address {
                return Some(i);
            }
            i = i + 1;
        }
        None
    }

    /// Remove whatever is bound to `address`; a no-op when nothing is.
    ///
    /// This is the listener-destruction side of the protocol, reached only
    /// through [`MemoryListener::close`] so that an entry cannot be removed
    /// out from under a live listener: once the address is removed it is
    /// free to be bound again. Connects that still hold the old queue's
    /// sending half fail on their send instead.
    pub(crate) fn unbind(&mut self, address: Address)
        requires
            old(self).wf(),
        ensures
            final(self).wf(),
            unbind_removes(*old(self), *final(self), address),
            final(self).cursor() == old(self).cursor(),
    {
        match self.index_of(address) {
            None => {
            },
            Some(i) => {
                let ghost pre = self.entries@;
                self.entries.remove(i);
                proof {
                    let post = self.entries@;
                    let iv = i as int;
                    assert(pre[iv].address == address);
                    assert forall|m: int| 0 <= m < post.len() implies #[trigger] post[m]
                        == (if m < iv {
                        pre[m]
                    } else {
                        pre[m + 1]
                    }) by {
                        assert(post =~= pre.take(iv) + pre.skip(iv + 1));
                    }
                    assert forall|x: Address| x != address implies #[trigger] self.bound(x)
                        == old(self).bound(x) by {
                        if self.bound(x) {
                            let m = choose|m: int|
                                0 <= m < post.len() && post[m].address == x;
                            if m < iv {
                                assert(pre[m].address == x);
                            } else {
                                assert(pre[m + 1].address == x);
                            }
                            assert(old(self).bound(x));
                        }
                        if old(self).bound(x) {
                            let m = choose|m: int| 0 <= m < pre.len() && pre[m].address == x;
                            assert(m != iv);
                            if m < iv {
                                assert(post[m].address == x);
                            } else {
                                assert(post[m - 1].address == x);
                            }
                            assert(self.bound(x));
                        }
                    }
                    assert(!self.bound(address)) by {
                        if self.bound(address) {
                            let m = choose|m: int|
                                0 <= m < post.len() && post[m].address == address;
                            let pm: int = if m < iv {
                                m
                            } else {
                                m + 1
                            };
                            assert(pre[pm].address == address);
                            assert(pm != iv ==> false);
                        }
                    }
                    assert forall|a: int, b: int| 0 <= a < b < post.len() implies
                        #[trigger] post[a].address != #[trigger] post[b].address by {
                        let pa: int = if a < iv {
                            a
                        } else {
                            a + 1
                        };
                        let pb: int = if b < iv {
                            b
                        } else {
                            b + 1
                        };
                        assert(post[a] == pre[pa]);
                        assert(post[b] == pre[pb]);
                    }
                }
            },
        }
    }

    /// Probe for a free port for `base`'s host, starting at the cursor and
    /// wrapping from [`TOP_PORT`] back to 1. On success the cursor is
    /// advanced past the chosen port; when a whole cycle finds every port
    /// taken, the registry is left untouched and nothing is returned.
    #[verifier::loop_isolation(false)]
    fn pick_free_port(&mut self, base: Address) -> (r: Option<u16>)
        requires
            old(self).wf(),
        ensures
            final(self).wf(),
            forall|x: Address| #[trigger] final(self).bound(x) == old(self).bound(x),
            r matches Some(p) ==> (1 <= p <= TOP_PORT && !old(self).bound(
                base.spec_with_port(p),
            ) && final(self).cursor() == cursor_after(p as int) && forall|j: int|
                0 <= j < probe_distance(old(self).cursor() as int, p as int) ==> old(self).bound(
                    #[trigger] base.spec_with_port(probe_port(old(self).cursor() as int, j) as u16),
                )),
            r is None ==> (*final(self) == *old(self) && forall|q: u16|
                1 <= q <= TOP_PORT ==> old(self).bound(#[trigger] base.spec_with_port(q))),
    {
        let start: u16 = self.next_port;
        let mut p: u16 = start;
        let mut k: u16 = 0;
        while k < TOP_PORT
            invariant
                *self == *old(self),
                1 <= start <= TOP_PORT,
                1 <= p <= TOP_PORT,
                k <= TOP_PORT,
                p == if start + k <= TOP_PORT {
                    (start + k) as int
                } else {
                    (start + k - TOP_PORT) as int
                },
                forall|q: u16|
                    probed(start as int, k as int, q as int) ==> self.bound(
                        #[trigger] base.spec_with_port(q),
                    ),
            decreases TOP_PORT - k,
        {
            let cand = base.with_port(p);
            if !self.contains_addr(cand) {
                self.next_port = if p >= TOP_PORT {
                    1
                } else {
                    p + 1
                };
                proof {
                    assert(probe_distance(start as int, p as int) == k as int);
                    assert forall|j: int| 0 <= j < k implies old(self).bound(
                        #[trigger] base.spec_with_port(probe_port(start as int, j) as u16),
                    ) by {
                        let pp = probe_port(start as int, j);
                        assert(1 <= pp <= TOP_PORT);
                        assert((pp as u16) as int == pp);
                        assert(probed(start as int, k as int, pp));
                    }
                    assert forall|x: Address| #[trigger] self.bound(x) == old(self).bound(x) by {
                        assert(self.entries@ == old(self).entries@);
                        if self.bound(x) {
                            let m = choose|m: int|
                                0 <= m < self.entries@.len() && self.entries@[m].address == x;
                            assert(old(self).entries@[m].address == x);
                        }
                        if old(self).bound(x) {
                            let m = choose|m: int|
                                0 <= m < old(self).entries@.len() && old(self).entries@[m].address
                                    == x;
                            assert(self.entries@[m].address == x);
                        }
                    }
                }
                return Some(p);
            }
            p = if p >= TOP_PORT {
                1
            } else {
                p + 1
            };
            k = k + 1;
        }
        proof {
            assert forall|q: u16| 1 <= q <= TOP_PORT implies self.bound(
                #[trigger] base.spec_with_port(q),
            ) by {
                assert(probed(start as int, TOP_PORT as int, q as int));
            }
        }
        None
    }
}

/// Whether port `q` is among the first `k` candidates of a probe that
/// started at `start` and wraps from [`TOP_PORT`] back to 1.
spec fn probed(start: int, k: int, q: int) -> bool {
    if start + k <= TOP_PORT + 1 {
        start <= q < start + k
    } else {
        start <= q <= TOP_PORT || 1 <= q < start + k - TOP_PORT
    }
}

/// The `k`-th candidate of a probe starting at `start`, wrapping from
/// [`TOP_PORT`] back to 1.
pub open spec fn probe_port(start: int, k: int) -> int
    recommends
        1 <= start <= TOP_PORT,
        0 <= k < TOP_PORT,
{
    if start + k <= TOP_PORT {
        start + k
    } else {
        start + k - TOP_PORT
    }
}

/// How many probe steps lead from `start` to port `p`.
pub open spec fn probe_distance(start: int, p: int) -> int
    recommends
        1 <= start <= TOP_PORT,
        1 <= p <= TOP_PORT,
{
    if p >= start {
        p - start
    } else {
        p - start + TOP_PORT
    }
}

/// Where the cursor stands after port `p` was assigned: just past it,
/// wrapping from [`TOP_PORT`] back to 1.
pub open spec fn cursor_after(p: int) -> int
    recommends
        1 <= p <= TOP_PORT,
{
    if p >= TOP_PORT {
        1
    } else {
        p + 1
    }
}

/// An in-memory socket server, listening for connections.
///
/// A `MemoryListener` is created by [`MemoryListener::bind`]ing an address
/// on a switchboard. Connections made to that address can be taken one at a
/// time with [`MemoryListener::accept`], iterated with
/// [`MemoryListener::incoming`], or polled without blocking through
/// [`MemoryListener::poll_accept`] and
/// [`MemoryListener::incoming_stream`]. Closing the listener with
/// [`MemoryListener::close`] frees its address for rebinding.
pub struct MemoryListener {
    incoming: flume::Receiver<MemorySocket>,
    address: Address,
}

impl MemoryListener {
    /// The address this listener is bound to.
    pub closed spec fn spec_addr(self) -> Address {
        self.address
    }

    /// Create a new `MemoryListener` bound to the given address.
    ///
    /// The unspecified all-zero host is rejected with `AddressUnavailable`:
    /// the switchboard has no notion of "any interface". An address whose
    /// port is `0` asks for automatic assignment: probing starts at the
    /// switchboard's cursor, skips bound ports, and fails with
    /// `AddressInUse` only after a full wrap finds every port taken. An
    /// explicit port that is already bound fails with `AddressInUse`;
    /// otherwise exactly that address is bound. The resolved address can be
    /// read back with [`MemoryListener::local_addr`].
    pub fn bind(board: &mut SwitchBoard, address: Address) -> (r: Result<
        MemoryListener,
        SocketError,
    >)
        requires
            old(board).wf(),
        ensures
            final(board).wf(),
            r matches Err(_) ==> *final(board) == *old(board),
            address.spec_is_unspecified() ==> (r matches Err(e) && e
                == SocketError::AddressUnavailable),
            !address.spec_is_unspecified() && address.port != 0 && old(board).bound(address)
                ==> (r matches Err(e) && e == SocketError::AddressInUse),
            !address.spec_is_unspecified() && address.port != 0 && !old(board).bound(address)
                ==> (r matches Ok(l) && l.spec_addr() == address && bind_inserts(
                *old(board),
                *final(board),
                address,
            ) && final(board).cursor() == old(board).cursor()),
            !address.spec_is_unspecified() && address.port == 0 ==> (r matches Ok(l) ==> {
                &&& l.spec_addr().same_host(address)
                &&& !l.spec_addr().spec_is_unspecified()
                &&& 1 <= l.spec_addr().port <= TOP_PORT
                &&& bind_inserts(*old(board), *final(board), l.spec_addr())
                &&& forall|j: int|
                    0 <= j < probe_distance(old(board).cursor() as int, l.spec_addr().port as int)
                        ==> old(board).bound(
                        #[trigger] address.spec_with_port(
                            probe_port(old(board).cursor() as int, j) as u16,
                        ),
                    )
                &&& final(board).cursor() == cursor_after(l.spec_addr().port as int)
            }),
            !address.spec_is_unspecified() && address.port == 0 ==> (r matches Err(e)
                ==> e == SocketError::AddressInUse && forall|p: u16|
                1 <= p <= TOP_PORT ==> old(board).bound(#[trigger] address.spec_with_port(p))),
    {
        if address.is_unspecified() {
            return Err(SocketError::AddressUnavailable);
        }
        let resolved: Address;
        if address.port() == 0 {
            match board.pick_free_port(address) {
                Some(p) => {
                    resolved = address.with_port(p);
                },
                None => {
                    return Err(SocketError::AddressInUse);
                },
            }
        } else {
            if board.contains_addr(address) {
                return Err(SocketError::AddressInUse);
            }
            resolved = address;
        }
        let (sender, receiver) = flume::unbounded::<MemorySocket>();
        board.insert_entry(resolved, sender);
        Ok(MemoryListener { incoming: receiver, address: resolved })
    }

    /// The local address this listener is bound to; after binding with
    /// port 0 this is where the assigned port can be read.
    pub fn local_addr(&self) -> (r: Address)
        ensures
            r == self.spec_addr(),
    {
        self.address
    }

    /// Accept the next incoming connection, blocking the calling thread
    /// until one arrives.
    ///
    /// The connection queue never ends while the listener is alive, so the
    /// result is always a connected endpoint; the queue observing closure
    /// would be a logic fault and aborts inside the receive call rather
    /// than surface as an error or an end-of-stream.
    pub fn accept(&self) -> (r: Result<MemorySocket, SocketError>)
        ensures
            r matches Ok(s) && s.stream_wf() && s.consumed_bytes() == Seq::<u8>::empty()
                && s.flushed_bytes() == Seq::<u8>::empty(),
    {
        let mut s = recv_connection(&self.incoming);
        s.restart_accounting();
        Ok(s)
    }

    /// The non-blocking form of [`MemoryListener::accept`]: `Pending` until
    /// a connection is available, then `Ready` with the endpoint. The
    /// stream of connections never reports an end: the queue cannot close
    /// while the switchboard holds its sending half, so an impossible
    /// closure is treated as never becoming ready, exactly as the blocking
    /// form never returns.
    pub fn poll_accept(&self) -> (r: Poll<Result<MemorySocket, SocketError>>)
        ensures
            r matches Poll::Ready(res) ==> (res matches Ok(s) && s.stream_wf()
                && s.consumed_bytes() == Seq::<u8>::empty() && s.flushed_bytes()
                == Seq::<u8>::empty()),
    {
        match try_recv_step(&self.incoming) {
            RecvStep::Item(s) => {
                let mut s = s;
                s.restart_accounting();
                Poll::Ready(Ok(s))
            },
            RecvStep::Empty => Poll::Pending,
            RecvStep::Closed => Poll::Pending,
        }
    }

    /// An iterator-style view of the connections received on this
    /// listener: its `next` never returns `None`, exactly like calling
    /// [`MemoryListener::accept`] in a loop.
    pub fn incoming(&self) -> (r: Incoming<'_>)
        ensures
            r.spec_listener() == *self,
    {
        Incoming { inner: self }
    }

    /// A pollable stream of the connections received on this listener; it
    /// is never observed to terminate.
    pub fn incoming_stream(&mut self) -> (r: IncomingStream<'_>)
        ensures
            r.spec_listener() == *old(self),
    {
        IncomingStream { inner: &*self }
    }

    /// Close the listener, removing its address from the switchboard so
    /// the address can be bound again.
    pub fn close(self, board: &mut SwitchBoard)
        requires
            old(board).wf(),
        ensures
            final(board).wf(),
            unbind_removes(*old(board), *final(board), self.spec_addr()),
            final(board).cursor() == old(board).cursor(),
    {
        board.unbind(self.address);
    }
}

/// An iterator-like producer of the connections arriving at a
/// [`MemoryListener`]; created by [`MemoryListener::incoming`]. Its `next`
/// blocks until a connection arrives and never returns `None`.
pub struct Incoming<'a> {
    inner: &'a MemoryListener,
}

impl<'a> Incoming<'a> {
    /// The listener whose connections this yields.
    pub closed spec fn spec_listener(self) -> MemoryListener {
        *self.inner
    }

    /// Accept the next connection; blocks until one arrives and never
    /// yields `None`.
    pub fn next(&mut self) -> (r: Option<Result<MemorySocket, SocketError>>)
        ensures
            *final(self) == *old(self),
            r matches Some(res) && res matches Ok(s) && s.stream_wf() && s.consumed_bytes()
                == Seq::<u8>::empty() && s.flushed_bytes() == Seq::<u8>::empty(),
    {
        Some(self.inner.accept())
    }
}

/// A pollable stream of the connections arriving at a [`MemoryListener`];
/// created by [`MemoryListener::incoming_stream`]. It is never observed to
/// terminate: polling yields `Pending` until a connection arrives.
pub struct IncomingStream<'a> {
    inner: &'a MemoryListener,
}

impl<'a> IncomingStream<'a> {
    /// The listener whose connections this yields.
    pub closed spec fn spec_listener(self) -> MemoryListener {
        *self.inner
    }

    /// Poll for the next connection. The `None` that would end a stream is
    /// never produced.
    pub fn poll_next(&mut self) -> (r: Poll<Option<Result<MemorySocket, SocketError>>>)
        ensures
            *final(self) == *old(self),
            r matches Poll::Ready(opt) ==> (opt matches Some(res) && res matches Ok(s)
                && s.stream_wf() && s.consumed_bytes() == Seq::<u8>::empty() && s.flushed_bytes()
                == Seq::<u8>::empty()),
    {
        match self.inner.poll_accept() {
            Poll::Ready(res) => Poll::Ready(Some(res)),
            Poll::Pending => Poll::Pending,
        }
    }
}

/// Port allocation uniqueness: as long as the first listener stays bound,
/// a second bind never resolves to the same address, because a bind only
/// ever inserts an address that was free and the first one's address is
/// still bound.
pub proof fn lemma_port_allocation_unique(
    b0: SwitchBoard,
    b1: SwitchBoard,
    b2: SwitchBoard,
    a1: Address,
    a2: Address,
)
    requires
        bind_inserts(b0, b1, a1),
        bind_inserts(b1, b2, a2),
    ensures
        a1 != a2,
{
}

/// Address reuse: once the listener bound to an address is closed, that
/// exact address is bindable again — an explicit bind to it is owed
/// success.
pub proof fn lemma_address_reusable(
    b0: SwitchBoard,
    b1: SwitchBoard,
    b2: SwitchBoard,
    a: Address,
)
    requires
        bind_inserts(b0, b1, a),
        !a.spec_is_unspecified(),
        a.port != 0,
        unbind_removes(b1, b2, a),
    ensures
        b2.bindable(a),
{
}

} // verus!
