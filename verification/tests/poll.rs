use memory_socket::{Address, MemoryListener, MemorySocket, Poll, SocketError, SwitchBoard};

fn ready<T>(p: Poll<T>) -> T {
    match p {
        Poll::Ready(v) => v,
        Poll::Pending => panic!("expected the poll to be ready"),
    }
}

fn poll_read_exact(s: &mut MemorySocket, buf: &mut [u8]) -> Result<(), SocketError> {
    let mut filled = 0;
    while filled < buf.len() {
        match s.poll_read(&mut buf[filled..]) {
            Poll::Ready(Ok(0)) => return Err(SocketError::UnexpectedEof),
            Poll::Ready(Ok(n)) => filled += n,
            Poll::Ready(Err(e)) => return Err(e),
            Poll::Pending => panic!("expected data to be ready"),
        }
    }
    Ok(())
}

//
// MemoryListener tests
//

#[test]
fn async_listener_bind() -> Result<(), SocketError> {
    let mut board = SwitchBoard::new();
    let listener = MemoryListener::bind(&mut board, Address::new(192, 51, 100, 2, 42))?;
    let expected = Address::new(192, 51, 100, 2, 42);
    let actual = listener.local_addr();
    assert_eq!(actual, expected);

    Ok(())
}

#[test]
fn async_bind_unspecified() {
    // The unspecified address has no meaning here and is rejected.
    let mut board = SwitchBoard::new();
    let listener_result = MemoryListener::bind(&mut board, Address::new(0, 0, 0, 0, 0));
    assert!(listener_result.is_err());
}

#[test]
fn async_simple_connect() -> Result<(), SocketError> {
    let mut board = SwitchBoard::new();
    let mut listener = MemoryListener::bind(&mut board, Address::new(192, 51, 100, 2, 10))?;

    let mut dialer = MemorySocket::connect(&board, Address::new(192, 51, 100, 2, 10))?;
    let mut incoming = listener.incoming_stream();
    let mut listener_socket = ready(incoming.poll_next()).unwrap()?;

    ready(dialer.poll_write(b"foo"))?;
    ready(dialer.poll_flush())?;

    let mut buf = [0; 3];
    poll_read_exact(&mut listener_socket, &mut buf)?;
    assert_eq!(&buf, b"foo");

    Ok(())
}

#[test]
fn async_listen_on_port_zero() -> Result<(), SocketError> {
    let mut board = SwitchBoard::new();
    let mut listener = MemoryListener::bind(&mut board, Address::new(192, 51, 100, 2, 0))?;
    let listener_addr = listener.local_addr();

    let mut dialer = MemorySocket::connect(&board, listener_addr)?;
    let mut incoming = listener.incoming_stream();
    let mut listener_socket = ready(incoming.poll_next()).unwrap()?;

    ready(dialer.poll_write(b"foo"))?;
    ready(dialer.poll_flush())?;

    let mut buf = [0; 3];
    poll_read_exact(&mut listener_socket, &mut buf)?;
    assert_eq!(&buf, b"foo");

    ready(listener_socket.poll_write(b"bar"))?;
    ready(listener_socket.poll_flush())?;

    let mut buf = [0; 3];
    poll_read_exact(&mut dialer, &mut buf)?;
    assert_eq!(&buf, b"bar");

    Ok(())
}

#[test]
fn async_listener_correctly_frees_port_on_drop() -> Result<(), SocketError> {
    fn connect_on_port(board: &mut SwitchBoard, address: Address) -> Result<(), SocketError> {
        let mut listener = MemoryListener::bind(board, address)?;
        let mut dialer = MemorySocket::connect(board, address)?;
        let mut listener_socket = {
            let mut incoming = listener.incoming_stream();
            ready(incoming.poll_next()).unwrap()?
        };

        ready(dialer.poll_write(b"foo"))?;
        ready(dialer.poll_flush())?;

        let mut buf = [0; 3];
        poll_read_exact(&mut listener_socket, &mut buf)?;
        assert_eq!(&buf, b"foo");

        listener.close(board);
        Ok(())
    }

    let mut board = SwitchBoard::new();
    connect_on_port(&mut board, Address::new(192, 51, 100, 2, 9))?;
    connect_on_port(&mut board, Address::new(192, 51, 100, 2, 9))?;

    Ok(())
}

//
// MemorySocket tests
//

#[test]
fn async_simple_write_read() -> Result<(), SocketError> {
    let (mut a, mut b) = MemorySocket::new_pair();

    ready(a.poll_write(b"hello world"))?;
    ready(a.poll_flush())?;
    drop(a);

    let mut v = Vec::new();
    let mut tmp = [0; 32];
    loop {
        match ready(b.poll_read(&mut tmp)) {
            Ok(0) => break,
            Ok(n) => v.extend_from_slice(&tmp[..n]),
            Err(e) => return Err(e),
        }
    }
    assert_eq!(v, b"hello world");

    Ok(())
}

#[test]
fn async_partial_read() -> Result<(), SocketError> {
    let (mut a, mut b) = MemorySocket::new_pair();

    ready(a.poll_write(b"foobar"))?;
    ready(a.poll_flush())?;

    let mut buf = [0; 3];
    poll_read_exact(&mut b, &mut buf)?;
    assert_eq!(&buf, b"foo");
    poll_read_exact(&mut b, &mut buf)?;
    assert_eq!(&buf, b"bar");

    Ok(())
}

#[test]
fn async_partial_read_write_both_sides() -> Result<(), SocketError> {
    let (mut a, mut b) = MemorySocket::new_pair();

    ready(a.poll_write(b"foobar"))?;
    ready(a.poll_flush())?;
    ready(b.poll_write(b"stormlight"))?;
    ready(b.poll_flush())?;

    let mut buf_a = [0; 5];
    let mut buf_b = [0; 3];
    poll_read_exact(&mut a, &mut buf_a)?;
    assert_eq!(&buf_a, b"storm");
    poll_read_exact(&mut b, &mut buf_b)?;
    assert_eq!(&buf_b, b"foo");

    poll_read_exact(&mut a, &mut buf_a)?;
    assert_eq!(&buf_a, b"light");
    poll_read_exact(&mut b, &mut buf_b)?;
    assert_eq!(&buf_b, b"bar");

    Ok(())
}

#[test]
fn async_many_small_writes() -> Result<(), SocketError> {
    let (mut a, mut b) = MemorySocket::new_pair();

    ready(a.poll_write(b"words"))?;
    ready(a.poll_write(b" "))?;
    ready(a.poll_write(b"of"))?;
    ready(a.poll_write(b" "))?;
    ready(a.poll_write(b"radiance"))?;
    ready(a.poll_flush())?;
    drop(a);

    let mut buf = [0; 17];
    poll_read_exact(&mut b, &mut buf)?;
    assert_eq!(&buf, b"words of radiance");

    Ok(())
}

#[test]
fn async_read_zero_bytes() -> Result<(), SocketError> {
    let (mut a, mut b) = MemorySocket::new_pair();

    ready(a.poll_write(b"way of kings"))?;
    ready(a.poll_flush())?;

    let mut buf = [0; 12];
    poll_read_exact(&mut b, &mut buf[0..0])?;
    assert_eq!(buf, [0; 12]);
    poll_read_exact(&mut b, &mut buf)?;
    assert_eq!(&buf, b"way of kings");

    Ok(())
}

#[test]
fn async_read_bytes_with_large_buffer() -> Result<(), SocketError> {
    let (mut a, mut b) = MemorySocket::new_pair();

    ready(a.poll_write(b"way of kings"))?;
    ready(a.poll_flush())?;

    let mut buf = [0; 20];
    let bytes_read = ready(b.poll_read(&mut buf))?;
    assert_eq!(bytes_read, 12);
    assert_eq!(&buf[0..12], b"way of kings");

    Ok(())
}
