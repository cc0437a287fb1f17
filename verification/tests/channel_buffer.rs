use crossbeam::channel::{bounded, unbounded, TryRecvError};
use shared_arena::SharedArena;
use storage::channel_buffer::{
    receive_outcome, ChannelBufferReceiver, ChannelBufferSender, ReceiveError,
};
use storage::fixed_buffer::FixedBuffer;

#[test]
fn pushing() {
    let mut buffer: FixedBuffer<6> = FixedBuffer::new();
    assert_eq!(buffer.as_ref(), b"");
    buffer.push_slice(b"abc");
    assert_eq!(buffer.as_ref(), b"abc");
    assert_eq!(buffer.try_push_slice(b"de"), 2);
    assert_eq!(buffer.as_ref(), b"abcde");
    assert_eq!(buffer.try_push_slice(b"fgh"), 1);
    assert_eq!(buffer.as_ref(), b"abcdef");
    assert_eq!(buffer.try_push_slice(b"i"), 0);
    buffer.push_slice(b"");
    assert_eq!(buffer.as_ref(), b"abcdef");
}

#[test]
fn copying() {
    let buffer: FixedBuffer<4> = FixedBuffer::copy_from(b"wxyz");
    assert_eq!(buffer.as_ref(), b"wxyz");
    let empty: FixedBuffer<4> = Default::default();
    assert_eq!(empty.as_ref(), b"");
}

#[test]
fn packets_arrive_in_order() {
    let arena = SharedArena::new();
    let (tx, rx) = unbounded();
    let sender = ChannelBufferSender::new(tx);
    let receiver = ChannelBufferReceiver::new(rx);
    assert_eq!(receiver.try_recv().err(), Some(ReceiveError::Empty));
    sender.send(arena.alloc(FixedBuffer::copy_from(b"first")));
    sender.send(arena.alloc(FixedBuffer::copy_from(b"second")));
    let first = receiver.try_recv().ok().unwrap();
    assert_eq!((*first).as_ref(), b"first");
    let second = receiver.try_recv().ok().unwrap();
    assert_eq!((*second).as_ref(), b"second");
    drop(sender);
    assert_eq!(receiver.try_recv().err(), Some(ReceiveError::Disconnected));
}

#[test]
fn nobody_receives() {
    let arena = SharedArena::new();
    let (tx, rx) = bounded(1);
    let sender = ChannelBufferSender::new(tx);
    drop(rx);
    sender.send(arena.alloc(FixedBuffer::copy_from(b"lost")));
}

#[test]
fn outcomes() {
    assert_eq!(receive_outcome(Ok(5)), Ok(5));
    assert_eq!(receive_outcome::<u8>(Err(TryRecvError::Empty)), Err(ReceiveError::Empty));
    assert_eq!(
        receive_outcome::<u8>(Err(TryRecvError::Disconnected)),
        Err(ReceiveError::Disconnected)
    );
}
