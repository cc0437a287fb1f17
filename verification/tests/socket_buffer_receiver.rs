use storage::error::Error;
use storage::ring_buffer_sync::RingBufferSync;
use storage::socket_buffer_receiver::{ReceiveHalf, SocketBufferReceiver};

fn receiver() -> SocketBufferReceiver<'static> {
    let mut rx_buffer = RingBufferSync::new(vec![b'.'; 8]);
    rx_buffer.enqueue_slice(b"xxxxxx");
    rx_buffer.dequeue_allocated(6);
    rx_buffer.enqueue_slice(b"abcde");
    SocketBufferReceiver { rx_buffer, remote_seq_no: 100, receive_half: ReceiveHalf::Open }
}

#[test]
fn recv_takes_what_it_is_told_to() {
    let mut rx = receiver();
    assert_eq!(rx.recv_queue(), 5);
    let first = rx.recv(|buf| {
        assert_eq!(buf, b"ab");
        (1, buf[0])
    });
    assert_eq!(first, Ok(b'a'));
    assert_eq!(rx.recv_queue(), 4);
    assert_eq!(rx.remote_seq_no, 101);
    assert_eq!(rx.recv(|buf| (0, buf.len())), Ok(1));
    assert_eq!(rx.remote_seq_no, 101);
}

#[test]
fn recv_slice_goes_round() {
    let mut rx = receiver();
    let mut data = [0; 4];
    assert_eq!(rx.recv_slice(&mut data), Ok(4));
    assert_eq!(&data, b"abcd");
    assert_eq!(rx.remote_seq_no, 104);
    assert_eq!(rx.recv_slice(&mut data), Ok(1));
    assert_eq!(&data, b"ebcd");
    assert_eq!(rx.recv_slice(&mut data), Ok(0));
    assert_eq!(rx.remote_seq_no, 105);
}

#[test]
fn peek_takes_nothing() {
    let mut rx = receiver();
    assert_eq!(rx.peek(1), Ok(&b"a"[..]));
    assert_eq!(rx.peek(5), Ok(&b"ab"[..]));
    assert_eq!(rx.recv_queue(), 5);
    assert_eq!(rx.remote_seq_no, 100);
}

#[test]
fn peek_slice_shows_what_recv_slice_takes() {
    let mut rx = receiver();
    let mut peeked = [0; 6];
    let mut taken = [0; 6];
    assert_eq!(rx.peek_slice(&mut peeked), Ok(5));
    assert_eq!(rx.recv_queue(), 5);
    assert_eq!(rx.recv_slice(&mut taken), Ok(5));
    assert_eq!(peeked, taken);
    assert_eq!(&taken, b"abcde\0");
}

#[test]
fn sequence_numbers_start_again() {
    let mut rx = receiver();
    rx.remote_seq_no = usize::MAX - 1;
    assert_eq!(rx.recv(|_| (2, ())), Ok(()));
    assert_eq!(rx.remote_seq_no, 0);
}

#[test]
fn nothing_is_received_when_the_receive_half_is_not_open() {
    let cases = [
        (ReceiveHalf::Finished, Error::Finished),
        (ReceiveHalf::Closed, Error::Illegal),
    ];
    for (half, error) in cases {
        let mut rx = receiver();
        rx.receive_half = half;
        let mut data = *b"zz";
        assert_eq!(rx.recv::<_, ()>(|_| unreachable!()), Err(error));
        assert_eq!(rx.recv_slice(&mut data), Err(error));
        assert_eq!(rx.peek(3), Err(error));
        assert_eq!(rx.peek_slice(&mut data), Err(error));
        assert_eq!(&data, b"zz");
        assert_eq!(rx.recv_queue(), 5);
        assert_eq!(rx.remote_seq_no, 100);
        assert_eq!(half.recv_error_check(), Err(error));
    }
    assert_eq!(ReceiveHalf::Open.recv_error_check(), Ok(()));
}

#[test]
fn an_open_half_with_an_empty_buffer_gives_nothing() {
    let mut rx = receiver();
    rx.rx_buffer.clear();
    assert_eq!(rx.recv(|buf| (0, buf.len())), Ok(0));
    assert_eq!(rx.recv_slice(&mut [0; 2]), Ok(0));
    assert_eq!(rx.peek(2), Ok(&b""[..]));
}

#[test]
fn debug_output() {
    let text = format!("{:?}", receiver());
    assert_eq!(
        text,
        "SocketBufferReceiver { rx_buffer: BufferSync { .. }, remote_seq_no: 100, \
         receive_half: Open }"
    );
}
