//! The channel of `tokio` over which a task sends its result.

use tokio::sync::oneshot;
use vstd::prelude::*;

verus! {

/// `tokio::sync::oneshot::Sender`, taken as a whole.
#[verifier::external_type_specification]
#[verifier::external_body]
#[verifier::reject_recursive_types(T)]
pub struct ExOneshotSender<T>(oneshot::Sender<T>);

/// `tokio::sync::oneshot::Receiver`, taken as a whole.
#[verifier::external_type_specification]
#[verifier::external_body]
#[verifier::reject_recursive_types(T)]
pub struct ExOneshotReceiver<T>(oneshot::Receiver<T>);

/// `tokio::sync::oneshot::error::RecvError`: the sender is gone.
#[verifier::external_type_specification]
#[verifier::external_body]
pub struct ExRecvError(oneshot::error::RecvError);

/// The end at which the result of a task arrives. As long as there is one, it has not answered yet:
/// an answer uses it up.
#[verifier::reject_recursive_types(T)]
pub struct ResultReceiver<T> {
    rx: oneshot::Receiver<T>,
    sender: Ghost<oneshot::Sender<T>>,
    looks: Ghost<nat>,
    gives: Ghost<Option<T>>,
}

impl<T> ResultReceiver<T> {
    /// The other end, through which the task sends its result.
    pub closed spec fn sender(self) -> oneshot::Sender<T> {
        self.sender@
    }

    /// How many looks have found that nothing had arrived.
    pub closed spec fn looks(self) -> nat {
        self.looks@
    }

    /// The one answer of the channel: the result that the task sends, or none, if the task is gone
    /// without one. Which it is, the task decides; it shows when the receiver is used up.
    pub closed spec fn gives(self) -> Option<T> {
        self.gives@
    }
}

/// What a look into a task's channel finds.
#[verifier::reject_recursive_types(T)]
pub enum Polled<T> {
    /// The task has sent its result.
    Received(T),
    /// The task has not sent its result yet.
    Empty(ResultReceiver<T>),
    /// The task is gone, and has sent nothing.
    Closed,
}

/// `oneshot::channel`: the two ends of a new channel, into which no look was taken. What its answer
/// will be, the holder of the sender decides.
#[verifier::external_body]
pub(crate) fn oneshot_channel<T>() -> (r: (oneshot::Sender<T>, ResultReceiver<T>))
    ensures
        r.1.sender() == r.0,
        r.1.looks() == 0,
{
    let (tx, rx) = oneshot::channel();
    let sender = Ghost(tx);
    (tx, ResultReceiver { rx, sender, looks: Ghost(0), gives: Ghost(None) })
}

/// `oneshot::Receiver::try_recv`: what has arrived by now, which the task decides. An arrived
/// result, and the sender being gone, are the answer of the channel. As long as there is none, the
/// receiver stays as it is.
#[verifier::external_body]
pub(crate) fn poll_result<T>(receiver: ResultReceiver<T>) -> (polled: Polled<T>)
    ensures
        match polled {
            Polled::Received(result) => receiver.gives() == Some(result),
            Polled::Empty(after) => {
                &&& after.sender() == receiver.sender()
                &&& after.looks() == receiver.looks() + 1
                &&& after.gives() == receiver.gives()
            },
            Polled::Closed => receiver.gives() is None,
        },
{
    let mut receiver = receiver;
    match receiver.rx.try_recv() {
        Ok(result) => Polled::Received(result),
        Err(oneshot::error::TryRecvError::Empty) => Polled::Empty(receiver),
        Err(oneshot::error::TryRecvError::Closed) => Polled::Closed,
    }
}

/// `oneshot::Receiver::blocking_recv`: waits for the answer of the channel, a result or the sender
/// being gone. Not for use inside an executor, where it panics.
#[verifier::external_body]
pub(crate) fn await_result<T>(receiver: ResultReceiver<T>) -> (r: Result<
    T,
    oneshot::error::RecvError,
>)
    ensures
        match r {
            Ok(result) => receiver.gives() == Some(result),
            Err(_) => receiver.gives() is None,
        },
{
    receiver.rx.blocking_recv()
}

/// The channel over which a task sends its result.
pub fn result_channel<T>() -> (r: (oneshot::Sender<T>, ResultReceiver<T>))
    ensures
        r.1.sender() == r.0,
        r.1.looks() == 0,
{
    oneshot_channel()
}

}
