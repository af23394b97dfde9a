//! The channels of `tokio` that the runtimes talk over.
//!
//! A contract speaks of what has been sent through a sender or taken from a receiver, of whether a
//! receiver is closed or exhausted, and of which sender leads to which receiver. There is one set
//! of functions for each type of item, because the history of an end is a sequence of those items.
//! Where a call adds to a history, or settles that a receiver is closed, the end is borrowed
//! mutably, so that the contract can tell before from after.

use tokio::sync::mpsc::error::TrySendError;
use tokio::sync::mpsc::{
    channel, unbounded_channel, Receiver, Sender, UnboundedReceiver, UnboundedSender,
    WeakUnboundedSender,
};
use tokio::task::{JoinError, JoinHandle};
use vstd::prelude::*;

use crate::runtime::{MainMessage, WorkerMessage};

verus! {

/// `tokio::sync::mpsc::UnboundedSender`, taken as a whole.
#[verifier::external_type_specification]
#[verifier::external_body]
#[verifier::reject_recursive_types(T)]
pub struct ExUnboundedSender<T>(UnboundedSender<T>);

/// `tokio::sync::mpsc::WeakUnboundedSender`, taken as a whole.
#[verifier::external_type_specification]
#[verifier::external_body]
#[verifier::reject_recursive_types(T)]
pub struct ExWeakUnboundedSender<T>(WeakUnboundedSender<T>);

/// `tokio::sync::mpsc::UnboundedReceiver`, taken as a whole.
#[verifier::external_type_specification]
#[verifier::external_body]
#[verifier::reject_recursive_types(T)]
pub struct ExUnboundedReceiver<T>(UnboundedReceiver<T>);

/// `tokio::sync::mpsc::Sender`, taken as a whole.
#[verifier::external_type_specification]
#[verifier::external_body]
#[verifier::reject_recursive_types(T)]
pub struct ExSender<T>(Sender<T>);

/// `tokio::sync::mpsc::Receiver`, taken as a whole.
#[verifier::external_type_specification]
#[verifier::external_body]
#[verifier::reject_recursive_types(T)]
pub struct ExReceiver<T>(Receiver<T>);

/// The messages that have been queued for the worker through `tx`, oldest first.
pub uninterp spec fn queued_work(tx: UnboundedSender<WorkerMessage>) -> Seq<WorkerMessage>;

/// Whether what is sent through `tx` arrives at `rx`.
pub uninterp spec fn feeds_worker(
    tx: UnboundedSender<WorkerMessage>,
    rx: UnboundedReceiver<WorkerMessage>,
) -> bool;

/// Whether what is sent through a sender that `tx` gives arrives at `rx`.
pub uninterp spec fn weakly_feeds_worker(
    tx: WeakUnboundedSender<WorkerMessage>,
    rx: UnboundedReceiver<WorkerMessage>,
) -> bool;

/// Whether `rx` is known to take no further message: it was closed, or was seen to be closed.
pub uninterp spec fn intake_closed(rx: UnboundedReceiver<WorkerMessage>) -> bool;

/// The messages that have been queued for the main thread through `tx`, oldest first.
pub uninterp spec fn queued_main(tx: Sender<MainMessage>) -> Seq<MainMessage>;

/// Whether what is sent through `tx` arrives at `rx`.
pub uninterp spec fn feeds_main(tx: Sender<MainMessage>, rx: Receiver<MainMessage>) -> bool;

/// How many messages the channel of `tx` holds at most.
pub uninterp spec fn main_capacity(tx: Sender<MainMessage>) -> nat;

/// All the messages that are ever queued in the channel of `tx`, oldest first, those to come among
/// them.
pub uninterp spec fn main_traffic(tx: Sender<MainMessage>) -> Seq<MainMessage>;

/// Whether `tx` has been the only sender of its channel, and has taken places in it only for the
/// messages that it queued.
pub uninterp spec fn sole_main_sender(tx: Sender<MainMessage>) -> bool;

/// The messages that have been taken from `rx`, oldest first.
pub uninterp spec fn taken_main(rx: Receiver<MainMessage>) -> Seq<MainMessage>;

/// Whether `rx` is known to give no further message: it is empty, and nothing can come.
pub uninterp spec fn main_exhausted(rx: Receiver<MainMessage>) -> bool;

/// Why the main thread's channel takes no message.
#[derive(Debug, Clone, Copy, PartialEq, Eq, Structural)]
pub enum MainSendError {
    Full,
    Closed,
}

/// `tokio::sync::mpsc::unbounded_channel`: the two ends of a new channel, which is open and has
/// nothing queued.
#[verifier::external_body]
pub(crate) fn worker_channel() -> (r: (
    UnboundedSender<WorkerMessage>,
    UnboundedReceiver<WorkerMessage>,
))
    ensures
        queued_work(r.0) == Seq::<WorkerMessage>::empty(),
        !intake_closed(r.1),
        feeds_worker(r.0, r.1),
{
    unbounded_channel()
}

/// `UnboundedSender::send`: the message is queued, or, if the receiver takes none any more, handed
/// back. Only a receiver that was closed, or has gone, which closes it, takes none.
#[verifier::external_body]
pub(crate) fn send_work(tx: &mut UnboundedSender<WorkerMessage>, message: WorkerMessage) -> (r:
    Result<(), WorkerMessage>)
    ensures
        r is Ok ==> queued_work(*final(tx)) == queued_work(*old(tx)).push(message),
        r is Err ==> queued_work(*final(tx)) == queued_work(*old(tx)),
        r matches Err(returned) ==> returned == message,
        r is Err ==> exists|rx: UnboundedReceiver<WorkerMessage>| #[trigger]
            feeds_worker(*old(tx), rx) && intake_closed(rx),
        forall|rx: UnboundedReceiver<WorkerMessage>| #[trigger]
            feeds_worker(*final(tx), rx) == feeds_worker(*old(tx), rx),
    opens_invariants none
{
    tx.send(message).map_err(|refused| refused.0)
}

/// `UnboundedSender::clone`: another end of the same channel, through which nothing has been
/// queued.
#[verifier::external_body]
pub(crate) fn clone_worker_sender(tx: &UnboundedSender<WorkerMessage>) -> (r: UnboundedSender<
    WorkerMessage,
>)
    ensures
        queued_work(r) == Seq::<WorkerMessage>::empty(),
        forall|rx: UnboundedReceiver<WorkerMessage>| #[trigger]
            feeds_worker(r, rx) == feeds_worker(*tx, rx),
{
    tx.clone()
}

/// `UnboundedSender::downgrade`: an end of the same channel that does not keep it open.
#[verifier::external_body]
pub(crate) fn downgrade_worker_sender(tx: &UnboundedSender<WorkerMessage>) -> (r:
    WeakUnboundedSender<WorkerMessage>)
    ensures
        forall|rx: UnboundedReceiver<WorkerMessage>| #[trigger]
            weakly_feeds_worker(r, rx) == feeds_worker(*tx, rx),
{
    tx.downgrade()
}

/// `WeakUnboundedSender::upgrade`: an end of the same channel, through which nothing has been
/// queued. There is none once every other sender is gone, which other threads decide; the receiver
/// then takes no further message.
#[verifier::external_body]
pub(crate) fn upgrade_worker_sender(tx: &WeakUnboundedSender<WorkerMessage>) -> (r: Option<
    UnboundedSender<WorkerMessage>,
>)
    ensures
        r matches Some(sender) ==> queued_work(sender) == Seq::<WorkerMessage>::empty() && forall|
            rx: UnboundedReceiver<WorkerMessage>,
        | #[trigger]
            feeds_worker(sender, rx) == weakly_feeds_worker(*tx, rx),
        r is None ==> exists|rx: UnboundedReceiver<WorkerMessage>| #[trigger]
            weakly_feeds_worker(*tx, rx) && intake_closed(rx),
{
    tx.upgrade()
}

/// `UnboundedReceiver::is_closed`: a receiver that was closed stays closed, and one that answers
/// that it is closed is so for good. An open one may also be closed by the last sender going away,
/// which other threads decide. The receiver is borrowed mutably so that the answer can be recorded.
#[verifier::external_body]
pub(crate) fn is_intake_closed(rx: &mut UnboundedReceiver<WorkerMessage>) -> (r: bool)
    ensures
        r == intake_closed(*final(rx)),
        intake_closed(*old(rx)) ==> r,
        forall|tx: UnboundedSender<WorkerMessage>| #[trigger]
            feeds_worker(tx, *final(rx)) == feeds_worker(tx, *old(rx)),
        forall|tx: WeakUnboundedSender<WorkerMessage>| #[trigger]
            weakly_feeds_worker(tx, *final(rx)) == weakly_feeds_worker(tx, *old(rx)),
{
    rx.is_closed()
}

/// `UnboundedReceiver::close`: the receiver takes no further message.
#[verifier::external_body]
pub(crate) fn close_intake(rx: &mut UnboundedReceiver<WorkerMessage>)
    ensures
        intake_closed(*final(rx)),
        forall|tx: UnboundedSender<WorkerMessage>| #[trigger]
            feeds_worker(tx, *final(rx)) == feeds_worker(tx, *old(rx)),
        forall|tx: WeakUnboundedSender<WorkerMessage>| #[trigger]
            weakly_feeds_worker(tx, *final(rx)) == weakly_feeds_worker(tx, *old(rx)),
{
    rx.close()
}

/// `tokio::sync::mpsc::channel`: the two ends of a new channel of the given capacity, which is
/// open, has this one sender, has nothing queued and has given nothing. The channel wants a
/// capacity, of at most an eighth of what a `usize` can count.
#[verifier::external_body]
pub(crate) fn main_channel(capacity: usize) -> (r: (Sender<MainMessage>, Receiver<MainMessage>))
    requires
        0 < capacity <= usize::MAX / 8,
    ensures
        queued_main(r.0) == Seq::<MainMessage>::empty(),
        main_capacity(r.0) == capacity,
        sole_main_sender(r.0),
        taken_main(r.1) == Seq::<MainMessage>::empty(),
        !main_exhausted(r.1),
        feeds_main(r.0, r.1),
{
    channel(capacity)
}

/// `Sender::try_reserve`, then `Permit::send`: with a free place the message is queued, otherwise
/// nothing is. Whether a place is free depends on how far the main thread has come. What the only
/// sender of a channel has queued is what went through the channel first. If it finds the channel
/// full, as many of its messages have not been taken as the channel holds; if it finds the channel
/// closed, nothing more goes through.
#[verifier::external_body]
pub(crate) fn send_main(tx: &mut Sender<MainMessage>, message: MainMessage) -> (r: Result<
    (),
    MainSendError,
>)
    ensures
        r is Ok ==> queued_main(*final(tx)) == queued_main(*old(tx)).push(message),
        r is Err ==> queued_main(*final(tx)) == queued_main(*old(tx)),
        main_capacity(*final(tx)) == main_capacity(*old(tx)),
        main_traffic(*final(tx)) == main_traffic(*old(tx)),
        sole_main_sender(*final(tx)) == sole_main_sender(*old(tx)),
        sole_main_sender(*old(tx)) ==> queued_main(*final(tx)).is_prefix_of(
            main_traffic(*final(tx)),
        ),
        sole_main_sender(*old(tx)) && r == Err::<(), MainSendError>(MainSendError::Full) ==> exists|
            rx: Receiver<MainMessage>,
        | #[trigger]
            feeds_main(*old(tx), rx) && taken_main(rx).len() + main_capacity(*old(tx))
                <= queued_main(*old(tx)).len(),
        sole_main_sender(*old(tx)) && r == Err::<(), MainSendError>(MainSendError::Closed)
            ==> main_traffic(*old(tx)) == queued_main(*old(tx)),
        forall|rx: Receiver<MainMessage>| #[trigger]
            feeds_main(*final(tx), rx) == feeds_main(*old(tx), rx),
{
    match tx.try_reserve() {
        Ok(permit) => Ok(permit.send(message)),
        Err(TrySendError::Full(())) => Err(MainSendError::Full),
        Err(TrySendError::Closed(())) => Err(MainSendError::Closed),
    }
}

/// `Receiver::blocking_recv`: waits for the next message and takes it. There is none only if the
/// channel is empty and nothing can come any more, which is then so for good. Messages come in the
/// order in which they were queued, and none is left out. What comes, and whether anything does,
/// other threads decide. Not for use inside an executor, where it panics.
#[verifier::external_body]
pub(crate) fn receive_main(rx: &mut Receiver<MainMessage>) -> (r: Option<MainMessage>)
    ensures
        r matches Some(message) ==> taken_main(*final(rx)) == taken_main(*old(rx)).push(message),
        r is None ==> taken_main(*final(rx)) == taken_main(*old(rx)),
        r is None == main_exhausted(*final(rx)),
        main_exhausted(*old(rx)) ==> r is None,
        forall|tx: Sender<MainMessage>| #[trigger]
            feeds_main(tx, *final(rx)) ==> taken_main(*final(rx)).is_prefix_of(main_traffic(tx)),
        forall|tx: Sender<MainMessage>| #[trigger]
            feeds_main(tx, *final(rx)) && r is None ==> taken_main(*final(rx)) == main_traffic(tx),
        forall|tx: Sender<MainMessage>| #[trigger]
            feeds_main(tx, *final(rx)) == feeds_main(tx, *old(rx)),
    opens_invariants none
{
    rx.blocking_recv()
}

/// `tokio::task::JoinHandle`, taken as a whole.
#[verifier::external_type_specification]
#[verifier::external_body]
#[verifier::reject_recursive_types(T)]
pub struct ExJoinHandle<T>(JoinHandle<T>);

/// `tokio::task::JoinError`, the error of the future that a `JoinHandle` is.
#[verifier::external_type_specification]
#[verifier::external_body]
pub struct ExJoinError(JoinError);

/// The spawned tasks that have been registered through `tx`, oldest first.
pub uninterp spec fn registered(tx: UnboundedSender<JoinHandle<()>>) -> Seq<JoinHandle<()>>;

/// Whether what is registered through `tx` arrives at `rx`.
pub uninterp spec fn feeds_registry(
    tx: UnboundedSender<JoinHandle<()>>,
    rx: UnboundedReceiver<JoinHandle<()>>,
) -> bool;

/// Whether `rx` was closed, be it by going away, so that it takes no further task.
pub uninterp spec fn registry_closed(rx: UnboundedReceiver<JoinHandle<()>>) -> bool;

/// `tokio::sync::mpsc::unbounded_channel`: the two ends of a new channel, which is open and has
/// nothing registered.
#[verifier::external_body]
pub(crate) fn registry_channel() -> (r: (
    UnboundedSender<JoinHandle<()>>,
    UnboundedReceiver<JoinHandle<()>>,
))
    ensures
        registered(r.0) == Seq::<JoinHandle<()>>::empty(),
        !registry_closed(r.1),
        feeds_registry(r.0, r.1),
{
    unbounded_channel()
}

/// `UnboundedSender::send`: the task is queued, or, if the receiver takes none any more, handed
/// back. Only a receiver that was closed, or has gone, which closes it, takes none.
#[verifier::external_body]
pub(crate) fn send_task(tx: &mut UnboundedSender<JoinHandle<()>>, task: JoinHandle<()>) -> (r:
    Result<(), JoinHandle<()>>)
    ensures
        r is Ok ==> registered(*final(tx)) == registered(*old(tx)).push(task),
        r is Err ==> registered(*final(tx)) == registered(*old(tx)),
        r matches Err(returned) ==> returned == task,
        r is Err ==> exists|rx: UnboundedReceiver<JoinHandle<()>>| #[trigger]
            feeds_registry(*old(tx), rx) && registry_closed(rx),
        forall|rx: UnboundedReceiver<JoinHandle<()>>| #[trigger]
            feeds_registry(*final(tx), rx) == feeds_registry(*old(tx), rx),
    opens_invariants none
{
    tx.send(task).map_err(|refused| refused.0)
}

/// `UnboundedSender::send`, with the receiver of the channel at hand: the task is queued unless
/// that receiver was closed, and then handed back. Nothing else but the receiver going away closes
/// the channel to a sender, and `rx` is here.
#[verifier::external_body]
pub(crate) fn send_task_to(
    tx: &mut UnboundedSender<JoinHandle<()>>,
    task: JoinHandle<()>,
    rx: &UnboundedReceiver<JoinHandle<()>>,
) -> (r: Result<(), JoinHandle<()>>)
    ensures
        r is Ok ==> registered(*final(tx)) == registered(*old(tx)).push(task),
        r is Err ==> registered(*final(tx)) == registered(*old(tx)),
        r matches Err(returned) ==> returned == task,
        feeds_registry(*old(tx), *rx) ==> (r is Ok <==> !registry_closed(*rx)),
        forall|other: UnboundedReceiver<JoinHandle<()>>| #[trigger]
            feeds_registry(*final(tx), other) == feeds_registry(*old(tx), other),
{
    tx.send(task).map_err(|refused| refused.0)
}

/// `UnboundedSender::clone`: another end of the same channel, through which nothing has been
/// registered.
#[verifier::external_body]
pub(crate) fn clone_registry_sender(tx: &UnboundedSender<JoinHandle<()>>) -> (r: UnboundedSender<
    JoinHandle<()>,
>)
    ensures
        registered(r) == Seq::<JoinHandle<()>>::empty(),
        forall|rx: UnboundedReceiver<JoinHandle<()>>| #[trigger]
            feeds_registry(r, rx) == feeds_registry(*tx, rx),
{
    tx.clone()
}

/// `UnboundedReceiver::close`: the receiver takes no further task.
#[verifier::external_body]
pub(crate) fn close_registry(rx: &mut UnboundedReceiver<JoinHandle<()>>)
    ensures
        registry_closed(*final(rx)),
        forall|tx: UnboundedSender<JoinHandle<()>>| #[trigger]
            feeds_registry(tx, *final(rx)) == feeds_registry(tx, *old(rx)),
    opens_invariants none
{
    rx.close()
}

/// What the looks that were taken through `task` have answered, oldest first: whether the task had
/// ended by then.
pub uninterp spec fn looks(task: JoinHandle<()>) -> Seq<bool>;

/// Whether `one` and `other` are handles on the same task.
pub uninterp spec fn same_task(one: JoinHandle<()>, other: JoinHandle<()>) -> bool;

/// Whether `after` is `before` after one more look, which answered `answer`.
pub open spec fn looked_at(before: JoinHandle<()>, answer: bool, after: JoinHandle<()>) -> bool {
    &&& looks(after) == looks(before).push(answer)
    &&& same_task(after, before)
    &&& forall|other: JoinHandle<()>| #[trigger]
        same_task(after, other) == same_task(before, other)
}

/// `JoinHandle::is_finished`: whether the task has ended by now, which the executor decides. The
/// handle is borrowed mutably so that the answer can be recorded. It stays one on the same task.
#[verifier::external_body]
pub(crate) fn is_finished(task: &mut JoinHandle<()>) -> (r: bool)
    ensures
        looks(*final(task)) == looks(*old(task)).push(r),
        same_task(*final(task), *old(task)),
        forall|other: JoinHandle<()>| #[trigger]
            same_task(*final(task), other) == same_task(*old(task), other),
{
    task.is_finished()
}

}
