use memory_socket::{Address, MemoryListener, MemorySocket, Poll, SocketError, SwitchBoard};

//
// Round-trip integrity: however the writes are cut into flushes and the
// reads are sized, the reader sees exactly the written byte sequence.
//

#[test]
fn round_trip_interleaved_flushes() -> Result<(), SocketError> {
    let (mut a, mut b) = MemorySocket::new_pair();

    a.write_all(b"ab")?;
    a.flush()?;
    a.write_all(b"c")?;
    a.write_all(b"de")?;
    a.flush()?;
    a.write_all(b"f")?;
    a.flush()?;
    drop(a);

    let mut v = Vec::new();
    let mut tmp = [0; 4];
    loop {
        let n = b.read(&mut tmp)?;
        if n == 0 {
            break;
        }
        v.extend_from_slice(&tmp[..n]);
    }
    assert_eq!(v, b"abcdef");

    Ok(())
}

#[test]
fn read_stays_within_one_chunk() -> Result<(), SocketError> {
    let (mut a, mut b) = MemorySocket::new_pair();

    a.write_all(b"foobar")?;
    a.flush()?;

    let mut buf = [0; 4];
    assert_eq!(b.read(&mut buf)?, 4);
    assert_eq!(&buf[..4], b"foob");
    assert_eq!(b.read(&mut buf)?, 2);
    assert_eq!(&buf[..2], b"ar");

    Ok(())
}

//
// Short-read legality: a read may return fewer bytes than asked, never
// more, and never zero except at end-of-stream.
//

#[test]
fn short_read_returns_available_not_zero() -> Result<(), SocketError> {
    let (mut a, mut b) = MemorySocket::new_pair();

    a.write_all(b"hello")?;
    a.flush()?;

    let mut buf = [0; 10];
    let n = b.read(&mut buf)?;
    assert_eq!(n, 5);
    assert_eq!(&buf[..5], b"hello");

    // Nothing further is available and the peer is alive: the pollable
    // read reports not-ready instead of an empty read.
    assert!(matches!(b.poll_read(&mut buf), Poll::Pending));

    Ok(())
}

#[test]
fn zero_length_buffer_reads_zero_bytes() -> Result<(), SocketError> {
    let (mut a, mut b) = MemorySocket::new_pair();

    a.write_all(b"data")?;
    a.flush()?;

    let mut empty = [0; 0];
    assert_eq!(b.read(&mut empty)?, 0);

    // The buffered data is untouched by the empty read.
    let mut buf = [0; 4];
    assert_eq!(b.read(&mut buf)?, 4);
    assert_eq!(&buf, b"data");

    Ok(())
}

//
// EOF-once: the first read after the peer is gone (with nothing buffered)
// succeeds with zero bytes; every later read fails with UnexpectedEof.
//

#[test]
fn eof_reported_once_then_error() -> Result<(), SocketError> {
    let (a, mut b) = MemorySocket::new_pair();
    drop(a);

    let mut buf = [0; 8];
    assert_eq!(b.read(&mut buf)?, 0);
    assert_eq!(b.read(&mut buf), Err(SocketError::UnexpectedEof));
    assert_eq!(b.read(&mut buf), Err(SocketError::UnexpectedEof));

    Ok(())
}

#[test]
fn eof_after_draining_buffered_data() -> Result<(), SocketError> {
    let (mut a, mut b) = MemorySocket::new_pair();

    a.write_all(b"last words")?;
    a.flush()?;
    drop(a);

    let mut buf = [0; 10];
    b.read_exact(&mut buf)?;
    assert_eq!(&buf, b"last words");
    assert_eq!(b.read(&mut buf)?, 0);
    assert_eq!(b.read(&mut buf), Err(SocketError::UnexpectedEof));

    Ok(())
}

#[test]
fn poll_read_eof_once_then_error() {
    let (a, mut b) = MemorySocket::new_pair();
    drop(a);

    let mut buf = [0; 8];
    assert!(matches!(b.poll_read(&mut buf), Poll::Ready(Ok(0))));
    assert!(matches!(
        b.poll_read(&mut buf),
        Poll::Ready(Err(SocketError::UnexpectedEof))
    ));
}

//
// Port allocation uniqueness and reuse.
//

#[test]
fn port_zero_twice_gives_distinct_addresses() -> Result<(), SocketError> {
    let mut board = SwitchBoard::new();
    let base = Address::new(10, 0, 0, 1, 0);

    let first = MemoryListener::bind(&mut board, base)?;
    let second = MemoryListener::bind(&mut board, base)?;
    assert_ne!(first.local_addr(), second.local_addr());
    assert_ne!(first.local_addr().port(), 0);
    assert_ne!(second.local_addr().port(), 0);

    // After the first listener is closed its exact address binds again.
    let freed = first.local_addr();
    first.close(&mut board);
    let third = MemoryListener::bind(&mut board, freed)?;
    assert_eq!(third.local_addr(), freed);

    Ok(())
}

#[test]
fn auto_assignment_skips_bound_ports() -> Result<(), SocketError> {
    let mut board = SwitchBoard::new();

    // Probing starts at port 1; with port 1 taken, the next candidate is 2.
    let explicit = MemoryListener::bind(&mut board, Address::new(10, 0, 0, 1, 1))?;
    let auto = MemoryListener::bind(&mut board, Address::new(10, 0, 0, 1, 0))?;
    assert_eq!(auto.local_addr().port(), 2);
    drop(explicit);

    Ok(())
}

#[test]
fn cursor_advances_past_assigned_port() -> Result<(), SocketError> {
    let mut board = SwitchBoard::new();
    let base = Address::new(10, 0, 0, 1, 0);

    let first = MemoryListener::bind(&mut board, base)?;
    assert_eq!(first.local_addr().port(), 1);
    first.close(&mut board);

    // Port 1 is free again, but probing resumes past it.
    let second = MemoryListener::bind(&mut board, base)?;
    assert_eq!(second.local_addr().port(), 2);

    Ok(())
}

//
// Bind collision and the unspecified address.
//

#[test]
fn bind_collision_reports_address_in_use() -> Result<(), SocketError> {
    let mut board = SwitchBoard::new();
    let addr = Address::new(10, 0, 0, 2, 80);

    let _listener = MemoryListener::bind(&mut board, addr)?;
    assert_eq!(
        MemoryListener::bind(&mut board, addr).err(),
        Some(SocketError::AddressInUse)
    );

    Ok(())
}

#[test]
fn bind_unspecified_host_reports_address_unavailable() {
    let mut board = SwitchBoard::new();
    assert_eq!(
        MemoryListener::bind(&mut board, Address::new(0, 0, 0, 0, 7)).err(),
        Some(SocketError::AddressUnavailable)
    );
}

//
// Connect-to-nothing.
//

#[test]
fn connect_to_unbound_address_fails() {
    let board = SwitchBoard::new();
    assert_eq!(
        MemorySocket::connect(&board, Address::new(10, 0, 0, 3, 999)).err(),
        Some(SocketError::AddressUnavailable)
    );
}

#[test]
fn connect_to_dead_listener_fails() -> Result<(), SocketError> {
    let mut board = SwitchBoard::new();
    let addr = Address::new(10, 0, 0, 3, 1000);

    // Dropping the listener without closing it leaves a stale entry whose
    // queue has no receiver; the connect's push fails.
    let listener = MemoryListener::bind(&mut board, addr)?;
    drop(listener);
    assert_eq!(
        MemorySocket::connect(&board, addr).err(),
        Some(SocketError::AddressUnavailable)
    );

    Ok(())
}

//
// Flush semantics and broken pipes.
//

#[test]
fn flush_to_dropped_peer_is_broken_pipe() -> Result<(), SocketError> {
    let (mut a, b) = MemorySocket::new_pair();
    drop(b);

    // Writing still succeeds: it only buffers.
    assert_eq!(a.write(b"lost")?, 4);
    assert_eq!(a.flush(), Err(SocketError::BrokenPipe));

    Ok(())
}

#[test]
fn empty_flush_sends_no_chunk() -> Result<(), SocketError> {
    let (mut a, mut b) = MemorySocket::new_pair();

    // Flushing an empty buffer succeeds and sends nothing at all.
    a.flush()?;
    a.flush()?;
    drop(a);

    // The reader goes straight to end-of-stream: no empty chunk was ever
    // delivered as data.
    let mut buf = [0; 4];
    assert_eq!(b.read(&mut buf)?, 0);

    Ok(())
}

#[test]
fn write_reports_full_length() -> Result<(), SocketError> {
    let (mut a, _b) = MemorySocket::new_pair();
    assert_eq!(a.write(b"foobar")?, 6);
    assert_eq!(a.write(b"")?, 0);
    Ok(())
}

#[test]
fn read_exact_past_eof_is_unexpected_eof() -> Result<(), SocketError> {
    let (mut a, mut b) = MemorySocket::new_pair();

    a.write_all(b"abc")?;
    a.flush()?;
    drop(a);

    let mut buf = [0; 5];
    assert_eq!(b.read_exact(&mut buf), Err(SocketError::UnexpectedEof));

    Ok(())
}

//
// The pollable accept.
//

// The stream of accepted connections deliberately diverges from ordinary
// finite-sequence conventions: it is never observed to terminate. Waiting is
// reported as Pending, never as an end.
#[test]
fn poll_accept_pending_then_ready() -> Result<(), SocketError> {
    let mut board = SwitchBoard::new();
    let addr = Address::new(10, 0, 0, 4, 5);
    let listener = MemoryListener::bind(&mut board, addr)?;

    assert!(matches!(listener.poll_accept(), Poll::Pending));

    let mut dialer = MemorySocket::connect(&board, addr)?;
    let mut accepted = match listener.poll_accept() {
        Poll::Ready(r) => r?,
        Poll::Pending => panic!("a connection was queued"),
    };

    dialer.write_all(b"hi")?;
    dialer.flush()?;
    let mut buf = [0; 2];
    accepted.read_exact(&mut buf)?;
    assert_eq!(&buf, b"hi");

    Ok(())
}
