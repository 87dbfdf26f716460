//! One endpoint of a connected in-memory byte stream.
//!
//! An endpoint holds the receiving half of one chunk channel and the sending
//! half of the opposite one, plus the local state that turns discrete chunks
//! back into byte-stream semantics: the most recently received chunk with a
//! read cursor, an accumulation buffer for written but unflushed bytes, and
//! a flag remembering that end-of-stream was already reported once.
//!
//! The contracts speak of four byte sequences: the bytes *delivered* to this
//! endpoint by its channel, the bytes already *consumed* by read calls, the
//! bytes *pending* in the write buffer, and the bytes *flushed* onto the
//! outgoing channel. Reads hand out exactly the delivered bytes, in order;
//! flushes hand the channel exactly the written bytes, in order. That the
//! peer's delivered sequence equals this endpoint's flushed sequence is the
//! channel's first-in-first-out guarantee, which is trusted, not proved.

use vstd::prelude::*;

use crate::addr::Address;
use crate::chan::RecvStep;
use crate::chan::try_recv_step;
use crate::poll::Poll;
use crate::switchboard::SwitchBoard;
use crate::SocketError;

verus! {

/// One discrete unit of bytes carried by a chunk channel. Splitting off the
/// first byte makes a chunk non-empty by construction: flushing never sends
/// an empty chunk, and a reader can count on every arrival carrying data.
pub(crate) struct Chunk {
    /// The first byte of the chunk.
    pub head: u8,
    /// The bytes after the first.
    pub tail: Vec<u8>,
}

impl Chunk {
    /// The bytes this chunk carries; never empty.
    pub(crate) open spec fn bytes(self) -> Seq<u8> {
        seq![self.head] + self.tail@
    }

    /// Unpacks the chunk into a plain byte vector.
    pub(crate) fn into_vec(self) -> (v: Vec<u8>)
        ensures
            v@ == self.bytes(),
    {
        let Chunk { head, mut tail } = self;
        let ghost tail_bytes = tail@;
        let mut v: Vec<u8> = Vec::new();
        v.push(head);
        v.append(&mut tail);
        proof {
            assert(v@ =~= seq![head] + tail_bytes);
        }
        v
    }
}

/// An in-memory stream between two local endpoints.
///
/// A `MemorySocket` is either one half of a [`MemorySocket::new_pair`], the
/// result of [`MemorySocket::connect`], or what a listener's accept call
/// yields. Bytes written and flushed on one endpoint come out of its peer's
/// reads in the same order, with chunk boundaries invisible to the reader.
pub struct MemorySocket {
    incoming: flume::Receiver<Chunk>,
    outgoing: flume::Sender<Chunk>,
    current: Vec<u8>,
    pos: usize,
    write_buffer: Vec<u8>,
    seen_eof: bool,
    delivered: Ghost<Seq<u8>>,
    consumed: Ghost<Seq<u8>>,
    flushed: Ghost<Seq<u8>>,
}

impl MemorySocket {
    /// All bytes the incoming channel has handed this endpoint so far.
    pub closed spec fn delivered_bytes(self) -> Seq<u8> {
        self.delivered@
    }

    /// All bytes read calls have handed to callers so far.
    pub closed spec fn consumed_bytes(self) -> Seq<u8> {
        self.consumed@
    }

    /// All bytes flushed onto the outgoing channel so far.
    pub closed spec fn flushed_bytes(self) -> Seq<u8> {
        self.flushed@
    }

    /// Bytes written but not yet flushed.
    pub closed spec fn pending_bytes(self) -> Seq<u8> {
        self.write_buffer@
    }

    /// Delivered bytes sitting in the current chunk, not yet consumed.
    pub closed spec fn remaining(self) -> Seq<u8> {
        if self.pos <= self.current@.len() {
            self.current@.skip(self.pos as int)
        } else {
            Seq::empty()
        }
    }

    /// Whether end-of-stream has already been reported to a caller.
    pub closed spec fn eof_seen(self) -> bool {
        self.seen_eof
    }

    /// The read-side accounting invariant: everything delivered has either
    /// been consumed or still sits in the current chunk.
    pub open spec fn stream_wf(self) -> bool {
        self.consumed_bytes() + self.remaining() == self.delivered_bytes()
    }

    /// A newly created endpoint: nothing delivered, consumed, pending,
    /// flushed or buffered, and end-of-stream not seen.
    pub open spec fn is_fresh(self) -> bool {
        &&& self.stream_wf()
        &&& self.delivered_bytes() == Seq::<u8>::empty()
        &&& self.consumed_bytes() == Seq::<u8>::empty()
        &&& self.flushed_bytes() == Seq::<u8>::empty()
        &&& self.pending_bytes() == Seq::<u8>::empty()
        &&& self.remaining() == Seq::<u8>::empty()
        &&& !self.eof_seen()
    }

    /// Wires one endpoint out of a receiving half and a sending half.
    pub(crate) fn new(incoming: flume::Receiver<Chunk>, outgoing: flume::Sender<Chunk>) -> (s:
        MemorySocket)
        ensures
            s.is_fresh(),
    {
        let s = MemorySocket {
            incoming,
            outgoing,
            current: Vec::new(),
            pos: 0,
            write_buffer: Vec::new(),
            seen_eof: false,
            delivered: Ghost(Seq::empty()),
            consumed: Ghost(Seq::empty()),
            flushed: Ghost(Seq::empty()),
        };
        proof {
            assert(s.remaining() =~= Seq::<u8>::empty());
        }
        s
    }

    /// Construct both sides of an in-memory stream, directly connected to
    /// each other without going through a switchboard.
    pub fn new_pair() -> (pair: (MemorySocket, MemorySocket))
        ensures
            pair.0.is_fresh(),
            pair.1.is_fresh(),
    {
        let (a_tx, a_rx) = flume::unbounded::<Chunk>();
        let (b_tx, b_rx) = flume::unbounded::<Chunk>();
        let a = MemorySocket::new(a_rx, b_tx);
        let b = MemorySocket::new(b_rx, a_tx);
        (a, b)
    }

    /// Append the given bytes to the write buffer and report all of them
    /// written. Writing never blocks and never fails; the bytes reach the
    /// peer once [`MemorySocket::flush`] is called.
    pub fn write(&mut self, data: &[u8]) -> (r: Result<usize, SocketError>)
        ensures
            r matches Ok(n) && n == data@.len(),
            final(self).pending_bytes() == old(self).pending_bytes() + data@,
            final(self).flushed_bytes() == old(self).flushed_bytes(),
            final(self).delivered_bytes() == old(self).delivered_bytes(),
            final(self).consumed_bytes() == old(self).consumed_bytes(),
            final(self).remaining() == old(self).remaining(),
            final(self).eof_seen() == old(self).eof_seen(),
    {
        let len = data.len();
        let mut i: usize = 0;
        while i < len
            invariant
                i <= len,
                len == data@.len(),
                self.write_buffer@ == old(self).write_buffer@ + data@.take(i as int),
                self.incoming == old(self).incoming,
                self.outgoing == old(self).outgoing,
                self.current == old(self).current,
                self.pos == old(self).pos,
                self.seen_eof == old(self).seen_eof,
                self.delivered == old(self).delivered,
                self.consumed == old(self).consumed,
                self.flushed == old(self).flushed,
            decreases len - i,
        {
            self.write_buffer.push(data[i]);
            proof {
                assert(old(self).write_buffer@ + data@.take(i as int) + seq![data@[i as int]]
                    =~= old(self).write_buffer@ + data@.take(i + 1));
            }
            i = i + 1;
        }
        proof {
            assert(data@.take(len as int) =~= data@);
        }
        Ok(len)
    }

    /// Like [`MemorySocket::write`], but discards the count; it is always
    /// the full length of `data`.
    pub fn write_all(&mut self, data: &[u8]) -> (r: Result<(), SocketError>)
        ensures
            r matches Ok(u) && u == (),
            final(self).pending_bytes() == old(self).pending_bytes() + data@,
            final(self).flushed_bytes() == old(self).flushed_bytes(),
            final(self).delivered_bytes() == old(self).delivered_bytes(),
            final(self).consumed_bytes() == old(self).consumed_bytes(),
            final(self).remaining() == old(self).remaining(),
            final(self).eof_seen() == old(self).eof_seen(),
    {
        match self.write(data) {
            Ok(_) => Ok(()),
            Err(e) => Err(e),
        }
    }

    /// Package the whole write buffer as one chunk, send it to the peer and
    /// clear the buffer. An empty buffer flushes successfully as a no-op,
    /// and no empty chunk is ever sent. If the peer has dropped its
    /// receiving side the flush fails with `BrokenPipe`; the buffered bytes
    /// are discarded either way, since nobody is left to read them.
    pub fn flush(&mut self) -> (r: Result<(), SocketError>)
        ensures
            final(self).pending_bytes() == Seq::<u8>::empty(),
            old(self).pending_bytes().len() == 0 ==> (r matches Ok(u) && u == () && *final(self)
                == *old(self)),
            r matches Ok(u) ==> final(self).flushed_bytes() == old(self).flushed_bytes() + old(self).pending_bytes(),
            r matches Err(e) ==> e == SocketError::BrokenPipe && final(self).flushed_bytes()
                == old(self).flushed_bytes(),
            final(self).delivered_bytes() == old(self).delivered_bytes(),
            final(self).consumed_bytes() == old(self).consumed_bytes(),
            final(self).remaining() == old(self).remaining(),
            final(self).eof_seen() == old(self).eof_seen(),
    {
        if self.write_buffer.len() == 0 {
            proof {
                assert(self.write_buffer@ =~= Seq::<u8>::empty());
            }
            return Ok(());
        }
        let mut payload: Vec<u8> = Vec::new();
        core::mem::swap(&mut payload, &mut self.write_buffer);
        let head = payload.remove(0);
        let chunk = Chunk { head, tail: payload };
        proof {
            assert(chunk.bytes() =~= old(self).pending_bytes());
        }
        match self.outgoing.send(chunk) {
            Ok(_) => {
                self.flushed = Ghost(self.flushed@ + old(self).pending_bytes());
                Ok(())
            },
            Err(_) => Err(SocketError::BrokenPipe),
        }
    }

    /// Record a freshly received chunk as the current one.
    fn admit_chunk(&mut self, chunk: Chunk)
        requires
            old(self).stream_wf(),
            old(self).remaining().len() == 0,
        ensures
            final(self).stream_wf(),
            final(self).delivered_bytes() == old(self).delivered_bytes() + chunk.bytes(),
            final(self).remaining() == chunk.bytes(),
            final(self).remaining().len() > 0,
            final(self).consumed_bytes() == old(self).consumed_bytes(),
            final(self).flushed_bytes() == old(self).flushed_bytes(),
            final(self).pending_bytes() == old(self).pending_bytes(),
            final(self).eof_seen() == old(self).eof_seen(),
    {
        self.delivered = Ghost(self.delivered@ + chunk.bytes());
        self.current = chunk.into_vec();
        self.pos = 0;
        proof {
            assert(self.remaining() =~= self.current@);
        }
    }

    /// Copy as many bytes as fit from the current chunk into `buf[start..]`,
    /// advancing the chunk cursor and the consumed accounting.
    #[verifier::loop_isolation(false)]
    fn copy_from_current(&mut self, buf: &mut [u8], start: usize) -> (k: usize)
        requires
            old(self).stream_wf(),
            start < old(buf)@.len(),
            old(self).remaining().len() > 0,
        ensures
            final(self).stream_wf(),
            final(buf)@.len() == old(buf)@.len(),
            k == if old(buf)@.len() - start <= old(self).remaining().len() {
                old(buf)@.len() - start
            } else {
                old(self).remaining().len() as int
            },
            k > 0,
            forall|j: int| 0 <= j < start ==> final(buf)@[j] == old(buf)@[j],
            forall|j: int|
                start + k <= j < old(buf)@.len() ==> final(buf)@[j] == old(buf)@[j],
            final(buf)@.subrange(start as int, start + k) == old(self).remaining().take(k as int),
            final(self).consumed_bytes() == old(self).consumed_bytes() + final(buf)@.subrange(
                start as int,
                start + k,
            ),
            final(self).remaining() == old(self).remaining().skip(k as int),
            final(self).delivered_bytes() == old(self).delivered_bytes(),
            final(self).flushed_bytes() == old(self).flushed_bytes(),
            final(self).pending_bytes() == old(self).pending_bytes(),
            final(self).eof_seen() == old(self).eof_seen(),
    {
        let cap = buf.len() - start;
        let avail = self.current.len() - self.pos;
        let k = if cap < avail {
            cap
        } else {
            avail
        };
        let mut i: usize = 0;
        while i < k
            invariant
                i <= k,
                buf@.len() == old(buf)@.len(),
                forall|j: int|
                    (0 <= j < start || start + i <= j < buf@.len()) ==> buf@[j] == old(buf)@[j],
                forall|j: int|
                    start <= j < start + i ==> #[trigger] buf@[j] == self.current@[self.pos + (
                    j - start)],
            decreases k - i,
        {
            let b = self.current[self.pos + i];
            buf[start + i] = b;
            i = i + 1;
        }
        proof {
            assert(buf@.subrange(start as int, start + k as int) =~= self.current@.subrange(
                self.pos as int,
                self.pos + k as int,
            ));
            assert(self.current@.subrange(self.pos as int, self.pos + k as int)
                =~= old(self).remaining().take(k as int));
        }
        self.consumed = Ghost(
            self.consumed@ + self.current@.subrange(self.pos as int, self.pos + k as int),
        );
        self.pos = self.pos + k;
        proof {
            assert(self.remaining() =~= old(self).remaining().skip(k as int));
            assert(old(self).remaining().take(k as int) + old(self).remaining().skip(k as int)
                =~= old(self).remaining());
            assert(self.consumed_bytes() + self.remaining() =~= old(self).consumed_bytes() + old(self).remaining());
        }
        k
    }

    /// The full blocking read, filling `buf[start..]`.
    fn read_into(&mut self, buf: &mut [u8], start: usize) -> (r: Result<usize, SocketError>)
        requires
            old(self).stream_wf(),
            start <= old(buf)@.len(),
        ensures
            final(self).stream_wf(),
            final(buf)@.len() == old(buf)@.len(),
            final(self).flushed_bytes() == old(self).flushed_bytes(),
            final(self).pending_bytes() == old(self).pending_bytes(),
            old(self).eof_seen() ==> (r matches Err(e) && e == SocketError::UnexpectedEof
                && *final(self) == *old(self) && final(buf)@ == old(buf)@),
            !old(self).eof_seen() ==> (r matches Ok(n) && {
                &&& n <= old(buf)@.len() - start
                &&& forall|j: int| 0 <= j < start ==> final(buf)@[j] == old(buf)@[j]
                &&& forall|j: int|
                    start + n <= j < old(buf)@.len() ==> final(buf)@[j] == old(buf)@[j]
                &&& final(self).consumed_bytes() == old(self).consumed_bytes() + final(buf)@.subrange(start as int, start + n)
                &&& old(self).delivered_bytes().is_prefix_of(final(self).delivered_bytes())
                &&& (n > 0 ==> !final(self).eof_seen())
                &&& ((n == 0 && start < old(buf)@.len()) ==> (final(self).eof_seen() && old(self).remaining().len() == 0 && final(self).delivered_bytes() == old(self).delivered_bytes() && final(buf)@ == old(buf)@))
                &&& (start == old(buf)@.len() ==> (n == 0 && *final(self) == *old(self) && final(buf)@ == old(buf)@))
                &&& (old(self).remaining().len() > 0 ==> (final(self).delivered_bytes() == old(self).delivered_bytes() && n == (if old(buf)@.len() - start <= old(self).remaining().len() {
                    old(buf)@.len() - start
                } else {
                    old(self).remaining().len() as int
                }) && final(buf)@.subrange(start as int, start + n) == old(self).remaining().take(
                    n as int,
                ) && final(self).remaining() == old(self).remaining().skip(n as int) && final(
                self).eof_seen() == old(self).eof_seen()))
            }),
    {
        if self.seen_eof {
            return Err(SocketError::UnexpectedEof);
        }
        if start == buf.len() {
            return Ok(0);
        }
        if self.pos >= self.current.len() {
            proof {
                assert(self.remaining() =~= Seq::<u8>::empty());
            }
            match self.incoming.recv() {
                Ok(chunk) => {
                    proof {
                        assert(self.delivered_bytes().is_prefix_of(
                            self.delivered_bytes() + chunk.bytes(),
                        )) by {
                            assert((self.delivered_bytes() + chunk.bytes()).take(
                                self.delivered_bytes().len() as int,
                            ) =~= self.delivered_bytes());
                        }
                    }
                    self.admit_chunk(chunk);
                },
                Err(_) => {
                    self.seen_eof = true;
                    return Ok(0);
                },
            }
        }
        let k = self.copy_from_current(buf, start);
        proof {
            assert(old(self).delivered_bytes().is_prefix_of(self.delivered_bytes())) by {
                assert(self.delivered_bytes().take(old(self).delivered_bytes().len() as int)
                    =~= old(self).delivered_bytes());
            }
        }
        Ok(k)
    }

    /// Read available bytes into `buf`, blocking only while nothing at all
    /// is available.
    ///
    /// If buffered bytes from an earlier chunk remain, the call copies as
    /// many of them as fit and returns at once — a short read when the
    /// buffer wants more. Otherwise it blocks for the next chunk and copies
    /// from that. The first time the peer's channel is found closed with no
    /// data left, the call returns a successful read of zero bytes; every
    /// read after that fails with `UnexpectedEof`.
    pub fn read(&mut self, buf: &mut [u8]) -> (r: Result<usize, SocketError>)
        requires
            old(self).stream_wf(),
        ensures
            final(self).stream_wf(),
            final(buf)@.len() == old(buf)@.len(),
            final(self).flushed_bytes() == old(self).flushed_bytes(),
            final(self).pending_bytes() == old(self).pending_bytes(),
            old(self).eof_seen() ==> (r matches Err(e) && e == SocketError::UnexpectedEof
                && *final(self) == *old(self) && final(buf)@ == old(buf)@),
            !old(self).eof_seen() ==> (r matches Ok(n) && {
                &&& n <= old(buf)@.len()
                &&& final(buf)@.skip(n as int) == old(buf)@.skip(n as int)
                &&& final(self).consumed_bytes() == old(self).consumed_bytes() + final(buf)@.take(
                    n as int,
                )
                &&& old(self).delivered_bytes().is_prefix_of(final(self).delivered_bytes())
                &&& (n > 0 ==> !final(self).eof_seen())
                &&& ((n == 0 && old(buf)@.len() > 0) ==> (final(self).eof_seen() && old(self).remaining().len() == 0 && final(self).delivered_bytes() == old(self).delivered_bytes()))
                &&& (old(buf)@.len() == 0 ==> (n == 0 && *final(self) == *old(self)))
                &&& (old(self).remaining().len() > 0 ==> (n == (if old(buf)@.len() <= old(self).remaining().len() {
                    old(buf)@.len() as int
                } else {
                    old(self).remaining().len() as int
                }) && final(self).delivered_bytes() == old(self).delivered_bytes() && final(buf)@.take(n as int) == old(self).remaining().take(n as int) && final(self).remaining()
                    == old(self).remaining().skip(n as int) && final(self).eof_seen()
                    == old(self).eof_seen()))
            }),
    {
        let r = self.read_into(buf, 0);
        proof {
            if !old(self).eof_seen() {
                if let Ok(n) = r {
                    assert(buf@.subrange(0, n as int) =~= buf@.take(n as int));
                    assert(buf@.skip(n as int) =~= old(buf)@.skip(n as int));
                }
            }
        }
        r
    }

    /// Read until `buf` is completely filled, or fail with `UnexpectedEof`
    /// if the stream ends first. On success the buffer holds exactly the
    /// next `buf.len()` bytes of the peer's stream, in order.
    #[verifier::loop_isolation(false)]
    pub fn read_exact(&mut self, buf: &mut [u8]) -> (r: Result<(), SocketError>)
        requires
            old(self).stream_wf(),
        ensures
            final(self).stream_wf(),
            final(buf)@.len() == old(buf)@.len(),
            final(self).flushed_bytes() == old(self).flushed_bytes(),
            final(self).pending_bytes() == old(self).pending_bytes(),
            old(self).consumed_bytes().is_prefix_of(final(self).consumed_bytes()),
            r matches Ok(u) ==> (final(self).consumed_bytes() == old(self).consumed_bytes()
                + final(buf)@ && final(self).eof_seen() == old(self).eof_seen()),
            r matches Err(e) ==> (e == SocketError::UnexpectedEof && final(self).eof_seen()),
            (old(self).eof_seen() && old(buf)@.len() > 0) ==> r is Err,
            (!old(self).eof_seen() && old(self).remaining().len() >= old(buf)@.len()) ==> (
            r matches Ok(u) && final(buf)@ == old(self).remaining().take(old(buf)@.len() as int)
                && final(self).delivered_bytes() == old(self).delivered_bytes()),
    {
        let mut filled: usize = 0;
        while filled < buf.len()
            invariant
                filled <= buf@.len(),
                buf@.len() == old(buf)@.len(),
                self.stream_wf(),
                self.consumed_bytes() == old(self).consumed_bytes() + buf@.take(filled as int),
                self.flushed_bytes() == old(self).flushed_bytes(),
                self.pending_bytes() == old(self).pending_bytes(),
                self.eof_seen() == old(self).eof_seen(),
                filled > 0 ==> !self.eof_seen(),
                old(self).remaining().len() >= buf@.len() ==> (self.delivered_bytes() == old(self).delivered_bytes()
                    && buf@.take(filled as int) == old(self).remaining().take(filled as int)
                    && self.remaining() == old(self).remaining().skip(filled as int)),
            decreases buf@.len() - filled,
        {
            let ghost buf_before = buf@;
            let ghost rem_before = self.remaining();
            let ghost consumed_before = self.consumed_bytes();
            match self.read_into(buf, filled) {
                Ok(n) => {
                    if n == 0 {
                        proof {
                            lemma_prefix_of_concat(
                                old(self).consumed_bytes(),
                                buf@.take(filled as int),
                            );
                        }
                        return Err(SocketError::UnexpectedEof);
                    }
                    proof {
                        assert(buf@.take(filled as int) =~= buf_before.take(filled as int));
                        assert(buf_before.take(filled as int) + buf@.subrange(
                            filled as int,
                            filled + n,
                        ) =~= buf@.take(filled + n));
                        if old(self).remaining().len() >= buf@.len() {
                            assert(rem_before.len() > 0);
                            assert(buf@.subrange(filled as int, filled + n) =~= rem_before.take(
                                n as int,
                            ));
                            assert(old(self).remaining().take(filled as int) + rem_before.take(
                                n as int,
                            ) =~= old(self).remaining().take(filled + n));
                            assert(self.remaining() =~= rem_before.skip(n as int));
                            assert(rem_before.skip(n as int) =~= old(self).remaining().skip(
                                filled + n,
                            ));
                        }
                    }
                    filled = filled + n;
                },
                Err(e) => {
                    proof {
                        lemma_prefix_of_concat(
                            old(self).consumed_bytes(),
                            buf@.take(filled as int),
                        );
                    }
                    return Err(e);
                },
            }
        }
        proof {
            assert(buf@.take(filled as int) =~= buf@);
            lemma_prefix_of_concat(old(self).consumed_bytes(), buf@.take(filled as int));
        }
        Ok(())
    }

    /// The non-blocking form of [`MemorySocket::read`]: identical in every
    /// observable way, except that where `read` would block for the next
    /// chunk this returns `Pending` and changes nothing, so the caller can
    /// poll again later and resume exactly where it left off.
    pub fn poll_read(&mut self, buf: &mut [u8]) -> (r: Poll<Result<usize, SocketError>>)
        requires
            old(self).stream_wf(),
        ensures
            final(self).stream_wf(),
            final(buf)@.len() == old(buf)@.len(),
            final(self).flushed_bytes() == old(self).flushed_bytes(),
            final(self).pending_bytes() == old(self).pending_bytes(),
            r is Pending ==> (*final(self) == *old(self) && final(buf)@ == old(buf)@),
            r is Pending ==> (!old(self).eof_seen() && old(self).remaining().len() == 0 && old(
                buf,
            )@.len() > 0),
            old(self).eof_seen() ==> (r matches Poll::Ready(res) && res matches Err(e) && e
                == SocketError::UnexpectedEof && *final(self) == *old(self) && final(buf)@ == old(buf)@),
            !old(self).eof_seen() ==> (r matches Poll::Ready(res) ==> res matches Ok(n) && {
                &&& n <= old(buf)@.len()
                &&& final(buf)@.skip(n as int) == old(buf)@.skip(n as int)
                &&& final(self).consumed_bytes() == old(self).consumed_bytes() + final(buf)@.take(
                    n as int,
                )
                &&& old(self).delivered_bytes().is_prefix_of(final(self).delivered_bytes())
                &&& (n > 0 ==> !final(self).eof_seen())
                &&& ((n == 0 && old(buf)@.len() > 0) ==> (final(self).eof_seen() && old(self).remaining().len() == 0 && final(self).delivered_bytes() == old(self).delivered_bytes()))
                &&& (old(buf)@.len() == 0 ==> (n == 0 && *final(self) == *old(self)))
                &&& (old(self).remaining().len() > 0 ==> (n == (if old(buf)@.len() <= old(self).remaining().len() {
                    old(buf)@.len() as int
                } else {
                    old(self).remaining().len() as int
                }) && final(self).delivered_bytes() == old(self).delivered_bytes() && final(buf)@.take(n as int) == old(self).remaining().take(n as int) && final(self).remaining()
                    == old(self).remaining().skip(n as int) && final(self).eof_seen()
                    == old(self).eof_seen()))
            }),
    {
        if self.seen_eof {
            return Poll::Ready(Err(SocketError::UnexpectedEof));
        }
        if buf.len() == 0 {
            return Poll::Ready(Ok(0));
        }
        if self.pos >= self.current.len() {
            proof {
                assert(self.remaining() =~= Seq::<u8>::empty());
            }
            match try_recv_step(&self.incoming) {
                RecvStep::Item(chunk) => {
                    proof {
                        assert(self.delivered_bytes().is_prefix_of(
                            self.delivered_bytes() + chunk.bytes(),
                        )) by {
                            assert((self.delivered_bytes() + chunk.bytes()).take(
                                self.delivered_bytes().len() as int,
                            ) =~= self.delivered_bytes());
                        }
                    }
                    self.admit_chunk(chunk);
                },
                RecvStep::Empty => {
                    return Poll::Pending;
                },
                RecvStep::Closed => {
                    self.seen_eof = true;
                    return Poll::Ready(Ok(0));
                },
            }
        }
        let k = self.copy_from_current(buf, 0);
        proof {
            assert(old(self).delivered_bytes().is_prefix_of(self.delivered_bytes())) by {
                assert(self.delivered_bytes().take(old(self).delivered_bytes().len() as int)
                    =~= old(self).delivered_bytes());
            }
            assert(buf@.subrange(0, k as int) =~= buf@.take(k as int));
            assert(buf@.skip(k as int) =~= old(buf)@.skip(k as int));
        }
        Poll::Ready(Ok(k))
    }
}

impl MemorySocket {
    /// Restart the ghost accounting from the endpoint's current state.
    ///
    /// An endpoint that arrived through a connection queue is opaque to the
    /// verifier, so its history cannot be carried along; from the new
    /// owner's point of view nothing has been consumed or flushed yet, and
    /// whatever sits buffered counts as delivered.
    pub(crate) fn restart_accounting(&mut self)
        ensures
            final(self).stream_wf(),
            final(self).consumed_bytes() == Seq::<u8>::empty(),
            final(self).flushed_bytes() == Seq::<u8>::empty(),
            final(self).delivered_bytes() == final(self).remaining(),
            final(self).remaining() == old(self).remaining(),
            final(self).pending_bytes() == old(self).pending_bytes(),
            final(self).eof_seen() == old(self).eof_seen(),
    {
        self.consumed = Ghost(Seq::empty());
        self.delivered = Ghost(self.remaining());
        self.flushed = Ghost(Seq::empty());
        proof {
            assert(self.consumed_bytes() + self.remaining() =~= self.remaining());
        }
    }

    /// Create a new endpoint connected to whatever listener is bound to
    /// `address` on the given switchboard.
    ///
    /// A fresh endpoint pair is made; one half is pushed onto the
    /// listener's connection queue for a later accept, the other half is
    /// returned. Fails with `AddressUnavailable` when nothing is bound to
    /// the address, or when an entry is still recorded but its listener is
    /// gone; no other error can come out.
    pub fn connect(board: &SwitchBoard, address: Address) -> (r: Result<MemorySocket, SocketError>)
        ensures
            !board.bound(address) ==> (r matches Err(e) && e == SocketError::AddressUnavailable),
            r matches Err(e) ==> e == SocketError::AddressUnavailable,
            r matches Ok(s) ==> (board.bound(address) && s.is_fresh()),
    {
        match board.find_sender(address) {
            Some(tx) => {
                let (a, b) = MemorySocket::new_pair();
                match tx.send(a) {
                    Ok(_) => Ok(b),
                    Err(_) => Err(SocketError::AddressUnavailable),
                }
            },
            None => Err(SocketError::AddressUnavailable),
        }
    }

    /// The non-blocking form of [`MemorySocket::write`]; writing is purely
    /// local buffering, so it is always immediately ready.
    pub fn poll_write(&mut self, data: &[u8]) -> (r: Poll<Result<usize, SocketError>>)
        ensures
            r matches Poll::Ready(res) && res matches Ok(n) && n == data@.len(),
            final(self).pending_bytes() == old(self).pending_bytes() + data@,
            final(self).flushed_bytes() == old(self).flushed_bytes(),
            final(self).delivered_bytes() == old(self).delivered_bytes(),
            final(self).consumed_bytes() == old(self).consumed_bytes(),
            final(self).remaining() == old(self).remaining(),
            final(self).eof_seen() == old(self).eof_seen(),
    {
        match self.write(data) {
            Ok(n) => Poll::Ready(Ok(n)),
            Err(e) => Poll::Ready(Err(e)),
        }
    }

    /// The non-blocking form of [`MemorySocket::flush`]: sending on an
    /// unbounded channel never waits for capacity, so a flush either
    /// completes or fails at once and is always immediately ready.
    pub fn poll_flush(&mut self) -> (r: Poll<Result<(), SocketError>>)
        ensures
            r is Ready,
            final(self).pending_bytes() == Seq::<u8>::empty(),
            old(self).pending_bytes().len() == 0 ==> (r matches Poll::Ready(res) && res matches Ok(
                u,
            ) && *final(self) == *old(self)),
            r matches Poll::Ready(res) ==> {
                &&& (res matches Ok(u) ==> final(self).flushed_bytes() == old(self).flushed_bytes() + old(self).pending_bytes())
                &&& (res matches Err(e) ==> e == SocketError::BrokenPipe && final(self).flushed_bytes() == old(self).flushed_bytes())
            },
            final(self).delivered_bytes() == old(self).delivered_bytes(),
            final(self).consumed_bytes() == old(self).consumed_bytes(),
            final(self).remaining() == old(self).remaining(),
            final(self).eof_seen() == old(self).eof_seen(),
    {
        let res = self.flush();
        Poll::Ready(res)
    }

    /// Closing the write side is a no-op beyond ordinary destruction:
    /// dropping the endpoint drops its outgoing sender, which is what the
    /// peer eventually observes as channel closure.
    pub fn poll_close(&mut self) -> (r: Poll<Result<(), SocketError>>)
        ensures
            r matches Poll::Ready(res) && res matches Ok(u) && u == (),
            *final(self) == *old(self),
    {
        Poll::Ready(Ok(()))
    }
}

/// Round-trip integrity, reduced to this library's accounting: the channel
/// between two endpoints is first-in-first-out and lossless while open, so
/// once every byte the writer flushed has been delivered to the reader —
/// and the reader has drained its buffered remainder — the bytes the
/// reader's read calls have produced are exactly the bytes the writer
/// flushed, in order, however the writes were cut into flush calls and
/// however the reads were sized.
pub proof fn lemma_round_trip(writer: MemorySocket, reader: MemorySocket)
    requires
        reader.stream_wf(),
        reader.delivered_bytes() == writer.flushed_bytes(),
        reader.remaining().len() == 0,
    ensures
        reader.consumed_bytes() == writer.flushed_bytes(),
{
    assert(reader.remaining() =~= Seq::<u8>::empty());
    assert(reader.consumed_bytes() + reader.remaining() =~= reader.consumed_bytes());
}

/// A sequence is a prefix of itself with anything appended.
proof fn lemma_prefix_of_concat(s: Seq<u8>, t: Seq<u8>)
    ensures
        s.is_prefix_of(s + t),
{
    assert((s + t).take(s.len() as int) =~= s);
}

} // verus!
