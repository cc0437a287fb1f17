//! The two ends of a channel that carries packet buffers.

use crate::fixed_buffer::FixedBuffer;
use crossbeam::channel::{Receiver, SendError, Sender, TryRecvError};
use shared_arena::ArenaBox;
use vstd::prelude::*;

verus! {

/// `shared_arena::ArenaBox`: a value that lives in an arena. It is only carried through here.
#[verifier::external_type_specification]
#[verifier::external_body]
#[verifier::reject_recursive_types(T)]
pub struct ExArenaBox<T>(ArenaBox<T>);

/// `crossbeam::channel::Sender`: the sending end of a channel.
#[verifier::external_type_specification]
#[verifier::external_body]
#[verifier::reject_recursive_types(T)]
pub struct ExSender<T>(Sender<T>);

/// `crossbeam::channel::Receiver`: the receiving end of a channel.
#[verifier::external_type_specification]
#[verifier::external_body]
#[verifier::reject_recursive_types(T)]
pub struct ExReceiver<T>(Receiver<T>);

/// `crossbeam::channel::SendError`: the message that could not be sent.
#[verifier::external_type_specification]
#[verifier::external_body]
#[verifier::reject_recursive_types(T)]
pub struct ExSendError<T>(SendError<T>);

/// `crossbeam::channel::TryRecvError`, with its two variants in sight.
#[verifier::external_type_specification]
pub struct ExTryRecvError(TryRecvError);

/// `crossbeam::channel::Sender::send`. Whether the message arrives depends on the other end of the
/// channel, and the call waits while a bounded channel is full: nothing is claimed of the result.
pub assume_specification<T>[ Sender::<T>::send ](sender: &Sender<T>, msg: T) -> (sent: Result<
    (),
    SendError<T>,
>);

/// `crossbeam::channel::Receiver::try_recv`. What is waiting in the channel depends on the other
/// end: nothing is claimed of the result.
pub assume_specification<T>[ Receiver::<T>::try_recv ](receiver: &Receiver<T>) -> (received: Result<
    T,
    TryRecvError,
>);

/// A packet buffer in an arena.
pub type ChannelBufferContent = ArenaBox<FixedBuffer<1600>>;

/// Why no packet buffer was received.
#[derive(Debug, Clone, Copy, PartialEq, Eq, Structural)]
pub enum ReceiveError {
    /// The channel is empty.
    Empty,
    /// The channel is empty, and nobody can send into it any more.
    Disconnected,
}

/// What is handed on of an attempt to receive.
pub open spec fn outcome<T>(received: Result<T, TryRecvError>) -> Result<T, ReceiveError> {
    match received {
        Ok(content) => Ok(content),
        Err(TryRecvError::Empty) => Err(ReceiveError::Empty),
        Err(TryRecvError::Disconnected) => Err(ReceiveError::Disconnected),
    }
}

/// The content of an attempt to receive is handed on as it is, and each reason why there was none
/// as the reason of the same name.
pub proof fn law_outcome<T>(received: Result<T, TryRecvError>)
    ensures
        received matches Ok(content) ==> outcome(received) == Ok::<T, ReceiveError>(content),
        received is Ok <==> outcome(received) is Ok,
        received == Err::<T, TryRecvError>(TryRecvError::Empty) <==> outcome(received) == Err::<
            T,
            ReceiveError,
        >(ReceiveError::Empty),
        received == Err::<T, TryRecvError>(TryRecvError::Disconnected) <==> outcome(received)
            == Err::<T, ReceiveError>(ReceiveError::Disconnected),
{
}

/// What is handed on of an attempt to receive: the content, or why there was none.
pub fn receive_outcome<T>(received: Result<T, TryRecvError>) -> (out: Result<T, ReceiveError>)
    ensures
        out == outcome(received),
{
    match received {
        Ok(content) => Ok(content),
        Err(TryRecvError::Empty) => Err(ReceiveError::Empty),
        Err(TryRecvError::Disconnected) => Err(ReceiveError::Disconnected),
    }
}

/// The end of a channel into which packet buffers are sent.
#[derive(Debug)]
pub struct ChannelBufferSender {
    tx: Sender<ChannelBufferContent>,
}

impl ChannelBufferSender {
    /// The end of the channel that is sent into.
    pub closed spec fn tx(self) -> Sender<ChannelBufferContent> {
        self.tx
    }

    /// Send into the given channel.
    pub fn new(tx: Sender<ChannelBufferContent>) -> (sender: Self)
        ensures
            sender.tx() == tx,
    {
        Self { tx }
    }

    /// Send a packet buffer. It is lost if nobody can receive it any more.
    pub fn send(&self, content: ChannelBufferContent)
        ensures
            exists|sent: Result<(), SendError<ChannelBufferContent>>| #[trigger]
                call_ensures(
                    Sender::<ChannelBufferContent>::send,
                    (&self.tx(), content),
                    sent,
                ),
    {
        let _ = self.tx.send(content);
    }
}

/// The end of a channel from which packet buffers are received.
#[derive(Debug)]
pub struct ChannelBufferReceiver {
    rx: Receiver<ChannelBufferContent>,
}

impl ChannelBufferReceiver {
    /// The end of the channel that is received from.
    pub closed spec fn rx(self) -> Receiver<ChannelBufferContent> {
        self.rx
    }

    /// Receive from the given channel.
    pub fn new(rx: Receiver<ChannelBufferContent>) -> (receiver: Self)
        ensures
            receiver.rx() == rx,
    {
        Self { rx }
    }

    /// Receive a packet buffer, if there is one waiting.
    pub fn try_recv(&self) -> (out: Result<ChannelBufferContent, ReceiveError>)
        ensures
            exists|received: Result<ChannelBufferContent, TryRecvError>|
                #[trigger] call_ensures(
                    Receiver::<ChannelBufferContent>::try_recv,
                    (&self.rx(),),
                    received,
                ) && out == outcome(received),
    {
        let received = self.rx.try_recv();
        assert(call_ensures(Receiver::<ChannelBufferContent>::try_recv, (&self.rx(),), received));
        receive_outcome(received)
    }
}

} // verus!
