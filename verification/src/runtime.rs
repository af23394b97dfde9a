//! The task runtime: a worker that hands tasks out, and the main thread that runs those that need
//! it.
//!
//! Closures and futures stay with the embedding program, each under a [`TaskKey`], for which a
//! [`crate::table::TaskTable`] serves. The messages carry the keys.

use std::collections::HashSet;

use tokio::sync::mpsc::{Receiver, Sender, UnboundedReceiver, UnboundedSender, WeakUnboundedSender};
use vstd::prelude::*;

use crate::channel::{
    clone_worker_sender, close_intake, downgrade_worker_sender, feeds_main, feeds_worker,
    intake_closed, is_intake_closed, main_capacity, main_channel, main_exhausted, main_traffic,
    queued_main, queued_work, receive_main, send_main, send_work, sole_main_sender, taken_main,
    upgrade_worker_sender, weakly_feeds_worker, worker_channel, MainSendError,
};

verus! {

/// Identifies a task that the worker has accepted.
pub type TaskId = u32;

/// The key under which the embedding program keeps the closure or the future of a task.
pub type TaskKey = u64;

/// What the worker is told.
#[derive(Debug, Clone, Copy, PartialEq, Eq, Structural)]
pub enum WorkerMessage {
    /// Run a closure; the flag says whether it needs the main thread.
    LaunchTaskSync(TaskKey, bool),
    /// Run a future.
    LaunchTaskAsync(TaskKey),
    /// A closure has returned.
    TaskComplete(TaskId),
}

/// What the main thread is told.
#[derive(Debug, Clone, Copy, PartialEq, Eq, Structural)]
pub enum MainMessage {
    /// Run a closure, then report the task complete.
    RunTaskSync(TaskKey, TaskId),
    /// Nothing is left to run.
    Terminate,
}

/// What no correct program makes the worker do.
#[derive(Debug, Clone, Copy, PartialEq, Eq, Structural)]
pub enum WorkerFault {
    /// Every task identifier has been given out.
    TaskIdsExhausted,
    /// The main thread is still occupied by another task.
    MainTaskRunning,
    /// A task was reported complete that is not active.
    UnknownTask(TaskId),
    /// The main thread has not taken the previous message yet.
    MainChannelFull,
    /// The main thread has stopped listening.
    MainChannelClosed,
    /// No sender for the worker is left.
    WorkerChannelGone,
}

/// What the embedding program does for the worker.
#[derive(Debug)]
pub enum WorkerAction {
    /// Nothing.
    Idle,
    /// Run the closure on a thread of its own, then send the task's completion.
    SpawnThread(TaskKey, TaskId, UnboundedSender<WorkerMessage>),
    /// Run the future on the executor.
    SpawnAsync(TaskKey),
}

/// What follows a receive by the worker.
#[derive(Debug)]
pub enum WorkerStep {
    /// Perform the action and receive again.
    Continue(WorkerAction),
    /// Send this last message to the main thread and end.
    Finish(MainMessage),
}

/// What follows a receive by the main thread.
#[derive(Debug, Clone, Copy, PartialEq, Eq, Structural)]
pub enum MainStep {
    /// Run the closure, then report the task complete.
    RunTask(TaskKey, TaskId),
    /// Leave the loop.
    Return,
}

/// The worker's state as a value.
pub struct WorkerView {
    /// The tasks that were launched and have not been reported complete.
    pub active: Set<TaskId>,
    /// The identifier of the next task.
    pub next_id: TaskId,
    /// The task that occupies the main thread.
    pub main_task: Option<TaskId>,
    /// What has been queued for the main thread.
    pub to_main: Seq<MainMessage>,
    /// Whether the worker takes no further message.
    pub closed: bool,
}

impl WorkerView {
    /// The state that the worker starts in.
    pub open spec fn initial() -> WorkerView {
        WorkerView {
            active: Set::empty(),
            next_id: 0,
            main_task: None,
            to_main: Seq::empty(),
            closed: false,
        }
    }

    /// Identifiers are given out in order, so the active ones lie below the next.
    pub open spec fn wf(self) -> bool {
        forall|id: TaskId| #[trigger] self.active.contains(id) ==> id < self.next_id
    }

    /// What is wrong with `message` in this state.
    pub open spec fn fault(self, message: WorkerMessage) -> Option<WorkerFault> {
        match message {
            WorkerMessage::LaunchTaskSync(_, main_required) => if self.next_id == TaskId::MAX {
                Some(WorkerFault::TaskIdsExhausted)
            } else if main_required && self.main_task is Some {
                Some(WorkerFault::MainTaskRunning)
            } else {
                None
            },
            WorkerMessage::LaunchTaskAsync(_) => None,
            WorkerMessage::TaskComplete(id) => if self.active.contains(id) {
                None
            } else {
                Some(WorkerFault::UnknownTask(id))
            },
        }
    }

    /// The state with one more active task.
    pub open spec fn launched(self) -> WorkerView {
        WorkerView {
            active: self.active.insert(self.next_id),
            next_id: (self.next_id + 1) as TaskId,
            ..self
        }
    }

    /// The state without the task `id`.
    pub open spec fn completed(self, id: TaskId) -> WorkerView {
        WorkerView {
            active: self.active.remove(id),
            main_task: if self.main_task == Some(id) {
                None
            } else {
                self.main_task
            },
            ..self
        }
    }

    /// The state in which nothing more is taken if no task is active.
    pub open spec fn settled(self) -> WorkerView {
        WorkerView { closed: self.closed || self.active =~= Set::empty(), ..self }
    }

    /// The state after `message`.
    pub open spec fn step(self, message: WorkerMessage) -> WorkerView {
        let next = match message {
            WorkerMessage::LaunchTaskSync(key, main_required) => if main_required {
                WorkerView {
                    to_main: self.to_main.push(MainMessage::RunTaskSync(key, self.next_id)),
                    ..self.launched()
                }
            } else {
                self.launched()
            },
            WorkerMessage::LaunchTaskAsync(_) => self,
            WorkerMessage::TaskComplete(id) => self.completed(id),
        };
        next.settled()
    }

    /// Whether `action` is what `message` asks of the embedding program in this state.
    pub open spec fn asks(self, message: WorkerMessage, action: WorkerAction) -> bool {
        match message {
            WorkerMessage::LaunchTaskSync(key, main_required) => if main_required {
                action is Idle
            } else {
                action matches WorkerAction::SpawnThread(task, id, sender) && task == key && id
                    == self.next_id && queued_work(sender) == Seq::<WorkerMessage>::empty()
            },
            WorkerMessage::LaunchTaskAsync(key) => action == WorkerAction::SpawnAsync(key),
            WorkerMessage::TaskComplete(_) => action is Idle,
        }
    }
}

/// Whether `fault` is one that the state of a channel can cause for `message`. Only a launch of a
/// closure needs a channel.
pub open spec fn channel_fault(message: WorkerMessage, fault: WorkerFault) -> bool {
    match message {
        WorkerMessage::LaunchTaskSync(_, true) => fault is MainChannelFull
            || fault is MainChannelClosed,
        WorkerMessage::LaunchTaskSync(_, false) => fault is WorkerChannelGone,
        _ => false,
    }
}

/// Whether the state of a channel is cause enough for `fault` at a worker that was `before`: the
/// main thread has not taken as many messages as its channel holds, its channel carries no more of
/// them, or the worker itself takes no further message.
pub open spec fn channel_failed(before: AsyncWorker, fault: WorkerFault) -> bool {
    match fault {
        WorkerFault::MainChannelFull => sole_main_sender(before.main_tx) ==> exists|
            rx: Receiver<MainMessage>,
        | #[trigger]
            feeds_main(before.main_tx, rx) && taken_main(rx).len() + main_capacity(before.main_tx)
                <= queued_main(before.main_tx).len(),
        WorkerFault::MainChannelClosed => sole_main_sender(before.main_tx) ==> main_traffic(
            before.main_tx,
        ) == queued_main(before.main_tx),
        WorkerFault::WorkerChannelGone => exists|rx: UnboundedReceiver<WorkerMessage>| #[trigger]
            weakly_feeds_worker(before.worker_weak_tx, rx) && intake_closed(rx),
        _ => false,
    }
}

/// Whether a worker that received `received` may answer `r` and go from `before` to `after`. A
/// launch can fail on the state of a channel. With nothing left to come, the main thread is told to
/// end.
pub open spec fn answered(
    before: WorkerView,
    received: Option<WorkerMessage>,
    after: WorkerView,
    r: Result<WorkerStep, WorkerFault>,
) -> bool {
    match received {
        Some(message) => match r {
            Ok(step) => {
                &&& after == before.step(message)
                &&& step matches WorkerStep::Continue(action)
                &&& before.asks(message, action)
            },
            Err(fault) => after == before.launched() && channel_fault(message, fault),
        },
        None => {
            &&& after == before
            &&& r == Ok::<WorkerStep, WorkerFault>(WorkerStep::Finish(MainMessage::Terminate))
        },
    }
}

/// Takes the worker's messages one by one and keeps track of the tasks.
pub struct AsyncWorker {
    pub worker_rx: UnboundedReceiver<WorkerMessage>,
    pub worker_weak_tx: WeakUnboundedSender<WorkerMessage>,
    pub main_tx: Sender<MainMessage>,
    pub active_tasks: HashSet<TaskId>,
    pub next_task_id: TaskId,
    pub current_main_task_id: Option<TaskId>,
}

impl View for AsyncWorker {
    type V = WorkerView;

    open spec fn view(&self) -> WorkerView {
        WorkerView {
            active: self.active_tasks@,
            next_id: self.next_task_id,
            main_task: self.current_main_task_id,
            to_main: queued_main(self.main_tx),
            closed: intake_closed(self.worker_rx),
        }
    }
}

impl AsyncWorker {
    /// Whether the senders that the worker gives to its tasks lead back to it.
    pub open spec fn connected(self) -> bool {
        weakly_feeds_worker(self.worker_weak_tx, self.worker_rx)
    }

    /// Whether the worker has the ends of the same channels as `before`.
    pub open spec fn stays_connected(self, before: AsyncWorker) -> bool {
        &&& self.worker_weak_tx == before.worker_weak_tx
        &&& forall|tx: UnboundedSender<WorkerMessage>| #[trigger]
            feeds_worker(tx, self.worker_rx) == feeds_worker(tx, before.worker_rx)
        &&& forall|tx: WeakUnboundedSender<WorkerMessage>| #[trigger]
            weakly_feeds_worker(tx, self.worker_rx) == weakly_feeds_worker(tx, before.worker_rx)
        &&& forall|rx: Receiver<MainMessage>| #[trigger]
            feeds_main(self.main_tx, rx) == feeds_main(before.main_tx, rx)
        &&& main_capacity(self.main_tx) == main_capacity(before.main_tx)
        &&& main_traffic(self.main_tx) == main_traffic(before.main_tx)
        &&& before.leads_main() ==> self.leads_main()
    }

    /// Whether the worker alone sends to the main thread, so that what it has sent comes first in
    /// the channel.
    pub open spec fn leads_main(self) -> bool {
        &&& sole_main_sender(self.main_tx)
        &&& queued_main(self.main_tx).is_prefix_of(main_traffic(self.main_tx))
    }

    /// A worker without tasks.
    pub fn new(
        worker_rx: UnboundedReceiver<WorkerMessage>,
        worker_weak_tx: WeakUnboundedSender<WorkerMessage>,
        main_tx: Sender<MainMessage>,
    ) -> (worker: Self)
        ensures
            worker@ == (WorkerView {
                to_main: queued_main(main_tx),
                closed: intake_closed(worker_rx),
                ..WorkerView::initial()
            }),
            worker@.wf(),
            worker.worker_rx == worker_rx,
            worker.worker_weak_tx == worker_weak_tx,
            worker.main_tx == main_tx,
    {
        AsyncWorker {
            worker_rx,
            worker_weak_tx,
            main_tx,
            active_tasks: HashSet::new(),
            next_task_id: 0,
            current_main_task_id: None,
        }
    }

    /// What is wrong with `message`, if anything.
    pub fn fault(&self, message: &WorkerMessage) -> (r: Option<WorkerFault>)
        ensures
            r == self@.fault(*message),
    {
        match *message {
            WorkerMessage::LaunchTaskSync(_, main_required) => {
                if self.next_task_id == TaskId::MAX {
                    Some(WorkerFault::TaskIdsExhausted)
                } else if main_required && self.current_main_task_id.is_some() {
                    Some(WorkerFault::MainTaskRunning)
                } else {
                    None
                }
            },
            WorkerMessage::LaunchTaskAsync(_) => None,
            WorkerMessage::TaskComplete(task_id) => {
                if self.active_tasks.contains(&task_id) {
                    None
                } else {
                    Some(WorkerFault::UnknownTask(task_id))
                }
            },
        }
    }

    /// Gives out the next task identifier.
    fn create_task(&mut self) -> (task_id: TaskId)
        requires
            old(self).next_task_id < TaskId::MAX,
        ensures
            task_id == old(self).next_task_id,
            final(self)@ == old(self)@.launched(),
            final(self).worker_rx == old(self).worker_rx,
            final(self).worker_weak_tx == old(self).worker_weak_tx,
            final(self).main_tx == old(self).main_tx,
    {
        let new_task_id = self.next_task_id;
        self.next_task_id += 1;
        self.active_tasks.insert(new_task_id);
        new_task_id
    }

    /// Answers `message`.
    ///
    /// A closure that needs the main thread is queued there; for the rest the action says what is
    /// to be done. Once no task is active the worker takes no further message. A launch can still
    /// fail on the state of a channel.
    pub fn process_message(&mut self, message: WorkerMessage) -> (r: Result<
        WorkerAction,
        WorkerFault,
    >)
        requires
            old(self)@.wf(),
            old(self)@.fault(message) is None,
        ensures
            final(self)@.wf(),
            r matches Ok(action) ==> final(self)@ == old(self)@.step(message) && old(self)@.asks(
                message,
                action,
            ),
            r matches Err(fault) ==> final(self)@ == old(self)@.launched() && channel_fault(
                message,
                fault,
            ),
            r matches Err(fault) ==> channel_failed(*old(self), fault),
            final(self).stays_connected(*old(self)),
            old(self).connected() ==> (r matches Ok(WorkerAction::SpawnThread(_, _, sender))
                ==> feeds_worker(sender, final(self).worker_rx)),
    {
        let action = match message {
            WorkerMessage::LaunchTaskSync(task, main_required) => {
                let task_id = self.create_task();
                let launched = if main_required {
                    let sent = send_main(
                        &mut self.main_tx,
                        MainMessage::RunTaskSync(task, task_id),
                    );
                    main_launch(sent)
                } else {
                    let sender = upgrade_worker_sender(&self.worker_weak_tx);
                    thread_launch(task, task_id, sender)
                };
                match launched {
                    Ok(action) => action,
                    Err(fault) => return Err(fault),
                }
            },
            WorkerMessage::LaunchTaskAsync(task) => WorkerAction::SpawnAsync(task),
            WorkerMessage::TaskComplete(task_id) => {
                self.active_tasks.remove(&task_id);
                if let Some(main_task_id) = self.current_main_task_id {
                    if main_task_id == task_id {
                        self.current_main_task_id = None;
                    }
                }
                WorkerAction::Idle
            },
        };

        if self.active_tasks.is_empty() && !is_intake_closed(&mut self.worker_rx) {
            close_intake(&mut self.worker_rx);
        }
        Ok(action)
    }

    /// Answers a receive: a message is processed; with none left to come, the main thread is told
    /// to end.
    pub fn on_received(&mut self, received: Option<WorkerMessage>) -> (r: Result<
        WorkerStep,
        WorkerFault,
    >)
        requires
            old(self)@.wf(),
            received matches Some(message) ==> old(self)@.fault(message) is None,
        ensures
            final(self)@.wf(),
            answered(old(self)@, received, final(self)@, r),
            received is None ==> *final(self) == *old(self),
            r matches Err(fault) ==> channel_failed(*old(self), fault),
            final(self).stays_connected(*old(self)),
            old(self).connected() ==> (r matches Ok(
                WorkerStep::Continue(WorkerAction::SpawnThread(_, _, sender)),
            ) ==> feeds_worker(sender, final(self).worker_rx)),
    {
        match received {
            Some(message) => match self.process_message(message) {
                Ok(action) => Ok(WorkerStep::Continue(action)),
                Err(fault) => Err(fault),
            },
            None => Ok(WorkerStep::Finish(MainMessage::Terminate)),
        }
    }
}

/// What comes of a launch on the main thread, by what its channel answered.
pub fn main_launch(sent: Result<(), MainSendError>) -> (r: Result<WorkerAction, WorkerFault>)
    ensures
        r == match sent {
            Ok(()) => Ok::<WorkerAction, WorkerFault>(WorkerAction::Idle),
            Err(MainSendError::Full) => Err(WorkerFault::MainChannelFull),
            Err(MainSendError::Closed) => Err(WorkerFault::MainChannelClosed),
        },
{
    match sent {
        Ok(()) => Ok(WorkerAction::Idle),
        Err(MainSendError::Full) => Err(WorkerFault::MainChannelFull),
        Err(MainSendError::Closed) => Err(WorkerFault::MainChannelClosed),
    }
}

/// What comes of a launch on a thread of its own, by whether a sender for its completion was to be
/// had.
pub fn thread_launch(
    task: TaskKey,
    task_id: TaskId,
    sender: Option<UnboundedSender<WorkerMessage>>,
) -> (r: Result<WorkerAction, WorkerFault>)
    ensures
        r == match sender {
            Some(sender) => Ok::<WorkerAction, WorkerFault>(
                WorkerAction::SpawnThread(task, task_id, sender),
            ),
            None => Err(WorkerFault::WorkerChannelGone),
        },
{
    match sender {
        Some(sender) => Ok(WorkerAction::SpawnThread(task, task_id, sender)),
        None => Err(WorkerFault::WorkerChannelGone),
    }
}

/// Whether `r` is the answer to a send of `message` that took what was sent from `before` to
/// `after`: a message that is not taken comes back.
pub open spec fn posted(
    before: Seq<WorkerMessage>,
    message: WorkerMessage,
    after: Seq<WorkerMessage>,
    r: Result<(), WorkerMessage>,
) -> bool {
    match r {
        Ok(()) => after == before.push(message),
        Err(returned) => after == before && returned == message,
    }
}

/// Whether what is sent through `one` arrives where that sent through `other` does.
pub open spec fn same_channel(
    one: UnboundedSender<WorkerMessage>,
    other: UnboundedSender<WorkerMessage>,
) -> bool {
    forall|rx: UnboundedReceiver<WorkerMessage>| #[trigger]
        feeds_worker(one, rx) == feeds_worker(other, rx)
}

/// Whether `r` may be the answer to a send through `tx`: a message is refused only if what `tx`
/// feeds takes none any more.
pub open spec fn taken_while_open(
    tx: UnboundedSender<WorkerMessage>,
    r: Result<(), WorkerMessage>,
) -> bool {
    r is Err ==> exists|rx: UnboundedReceiver<WorkerMessage>| #[trigger]
        feeds_worker(tx, rx) && intake_closed(rx)
}

/// Whether a send of `message` may answer `r` and take a handle from `before` to `after`.
pub open spec fn sent_by(
    before: Handle,
    message: WorkerMessage,
    after: Handle,
    r: Result<(), WorkerMessage>,
) -> bool {
    &&& after.terminate_flag == before.terminate_flag
    &&& posted(before.sent(), message, after.sent(), r)
    &&& taken_while_open(before.worker_tx, r)
    &&& same_channel(after.worker_tx, before.worker_tx)
}

/// The message that has a closure run on the main thread.
pub open spec fn closure_message(task: TaskKey) -> WorkerMessage {
    WorkerMessage::LaunchTaskSync(task, true)
}

/// The message that has a future run.
pub open spec fn future_message(task: TaskKey) -> WorkerMessage {
    WorkerMessage::LaunchTaskAsync(task)
}

/// Launches tasks on the worker.
pub struct Handle {
    pub worker_tx: UnboundedSender<WorkerMessage>,
    pub terminate_flag: bool,
}

impl Handle {
    /// The messages sent through this handle, oldest first.
    pub open spec fn sent(self) -> Seq<WorkerMessage> {
        queued_work(self.worker_tx)
    }

    /// Whether nothing has been done with this handle yet.
    pub open spec fn fresh(self) -> bool {
        self.sent() == Seq::<WorkerMessage>::empty() && !self.terminate_flag
    }

    /// Whether the runtime is being brought down.
    pub fn is_terminating(&self) -> (r: bool)
        ensures
            r == self.terminate_flag,
    {
        self.terminate_flag
    }

    /// Has the closure under `task` run on the main thread. The message comes back if the worker
    /// takes none any more.
    pub fn launch_task_sync(&mut self, task: TaskKey) -> (r: Result<(), WorkerMessage>)
        ensures
            sent_by(*old(self), closure_message(task), *final(self), r),
        opens_invariants none
    {
        self.send_worker_message(WorkerMessage::LaunchTaskSync(task, true))
    }

    /// Has the future under `task` run on the executor. The message comes back if the worker takes
    /// none any more.
    pub fn launch_task_async(&mut self, task: TaskKey) -> (r: Result<(), WorkerMessage>)
        ensures
            sent_by(*old(self), future_message(task), *final(self), r),
        opens_invariants none
    {
        self.send_worker_message(WorkerMessage::LaunchTaskAsync(task))
    }

    fn send_worker_message(&mut self, message: WorkerMessage) -> (r: Result<(), WorkerMessage>)
        ensures
            sent_by(*old(self), message, *final(self), r),
        opens_invariants none
    {
        send_work(&mut self.worker_tx, message)
    }
}

/// Whether `taken` may be what was taken from a channel through which `traffic` goes: messages come
/// in order, and none is left out. With the channel `exhausted`, all have come.
pub open spec fn delivered(
    traffic: Seq<MainMessage>,
    taken: Seq<MainMessage>,
    exhausted: bool,
) -> bool {
    &&& taken.is_prefix_of(traffic)
    &&& exhausted ==> taken == traffic
}

/// The main thread's side of the runtime.
pub struct MainLoop {
    pub worker_tx: UnboundedSender<WorkerMessage>,
    pub main_rx: Receiver<MainMessage>,
}

impl MainLoop {
    /// Takes the next message, waited for if there is none, and says what to do about it: run the
    /// task that it names, or leave, if it says so or if nothing can come any more. Not for use
    /// inside an executor, which must not be blocked.
    pub fn next_step(&mut self) -> (step: MainStep)
        ensures
            match step {
                MainStep::RunTask(task, task_id) => taken_main(final(self).main_rx) == taken_main(
                    old(self).main_rx,
                ).push(MainMessage::RunTaskSync(task, task_id)),
                MainStep::Return => {
                    ||| taken_main(final(self).main_rx) == taken_main(old(self).main_rx).push(
                        MainMessage::Terminate,
                    )
                    ||| taken_main(final(self).main_rx) == taken_main(old(self).main_rx)
                        && main_exhausted(final(self).main_rx)
                },
            },
            main_exhausted(old(self).main_rx) ==> step is Return && main_exhausted(
                final(self).main_rx,
            ),
            final(self).worker_tx == old(self).worker_tx,
            forall|tx: Sender<MainMessage>| #[trigger]
                feeds_main(tx, final(self).main_rx) == feeds_main(tx, old(self).main_rx),
            forall|tx: Sender<MainMessage>| #[trigger]
                feeds_main(tx, final(self).main_rx) ==> delivered(
                    main_traffic(tx),
                    taken_main(final(self).main_rx),
                    main_exhausted(final(self).main_rx),
                ),
        opens_invariants none
    {
        let received = receive_main(&mut self.main_rx);
        main_step(received)
    }

    /// Reports to the worker that the closure of a task has returned.
    pub fn task_finished(&mut self, task_id: TaskId) -> (r: Result<(), WorkerMessage>)
        ensures
            final(self).main_rx == old(self).main_rx,
            posted(
                queued_work(old(self).worker_tx),
                WorkerMessage::TaskComplete(task_id),
                queued_work(final(self).worker_tx),
                r,
            ),
            taken_while_open(old(self).worker_tx, r),
            same_channel(final(self).worker_tx, old(self).worker_tx),
        opens_invariants none
    {
        report_complete(&mut self.worker_tx, task_id)
    }
}

/// Reports to the worker, over `worker_tx`, that the closure of a task has returned. The message
/// comes back if the worker takes none any more.
pub fn report_complete(worker_tx: &mut UnboundedSender<WorkerMessage>, task_id: TaskId) -> (r:
    Result<(), WorkerMessage>)
    ensures
        posted(
            queued_work(*old(worker_tx)),
            WorkerMessage::TaskComplete(task_id),
            queued_work(*final(worker_tx)),
            r,
        ),
        taken_while_open(*old(worker_tx), r),
        same_channel(*final(worker_tx), *old(worker_tx)),
    opens_invariants none
{
    send_work(worker_tx, WorkerMessage::TaskComplete(task_id))
}

/// What the main thread does about what it received: it leaves when told to, and when nothing more
/// can come.
pub open spec fn step_for(received: Option<MainMessage>) -> MainStep {
    match received {
        Some(MainMessage::RunTaskSync(task, task_id)) => MainStep::RunTask(task, task_id),
        Some(MainMessage::Terminate) => MainStep::Return,
        None => MainStep::Return,
    }
}

/// What the main thread does about what it received.
pub fn main_step(received: Option<MainMessage>) -> (step: MainStep)
    ensures
        step == step_for(received),
    opens_invariants none
{
    match received {
        Some(MainMessage::RunTaskSync(task, task_id)) => MainStep::RunTask(task, task_id),
        Some(MainMessage::Terminate) => MainStep::Return,
        None => MainStep::Return,
    }
}

/// Connects a worker and a main loop, and lets `on_initialize` launch the first tasks.
pub fn start<F>(on_initialize: F) -> (r: (AsyncWorker, MainLoop))
where
    F: FnOnce(Handle),

    requires
        forall|handle: Handle| #[trigger]
            handle.fresh() ==> call_requires(on_initialize, (handle,)),
    ensures
        r.0@ == WorkerView::initial(),
        r.0@.wf(),
        r.0.connected(),
        queued_work(r.1.worker_tx) == Seq::<WorkerMessage>::empty(),
        feeds_worker(r.1.worker_tx, r.0.worker_rx),
        feeds_main(r.0.main_tx, r.1.main_rx),
        main_capacity(r.0.main_tx) == 1,
        r.0.leads_main(),
        taken_main(r.1.main_rx) == Seq::<MainMessage>::empty(),
        !main_exhausted(r.1.main_rx),
        exists|handle: Handle| #[trigger]
            handle.fresh() && feeds_worker(handle.worker_tx, r.0.worker_rx) && call_ensures(
                on_initialize,
                (handle,),
                (),
            ),
{
    let (worker_tx, worker_rx) = worker_channel();
    let (main_tx, main_rx) = main_channel(1);

    let rt = Handle { worker_tx: clone_worker_sender(&worker_tx), terminate_flag: false };
    assert(rt.fresh());
    on_initialize(rt);

    let worker_weak_tx = downgrade_worker_sender(&worker_tx);
    (AsyncWorker::new(worker_rx, worker_weak_tx, main_tx), MainLoop { worker_tx, main_rx })
}

/// The state after `messages`, from `state`.
pub open spec fn run(state: WorkerView, messages: Seq<WorkerMessage>) -> WorkerView
    decreases messages.len(),
{
    if messages.len() == 0 {
        state
    } else {
        run(state, messages.drop_last()).step(messages.last())
    }
}

/// Whether no message of `messages` is at fault when it comes, from `state`.
pub open spec fn accepted(state: WorkerView, messages: Seq<WorkerMessage>) -> bool
    decreases messages.len(),
{
    messages.len() == 0 || (accepted(state, messages.drop_last()) && run(
        state,
        messages.drop_last(),
    ).fault(messages.last()) is None)
}

/// How many of `messages` launch a closure.
pub open spec fn launches(messages: Seq<WorkerMessage>) -> nat {
    messages.filter(|message: WorkerMessage| message is LaunchTaskSync).len()
}

/// How many of `messages` report a task complete.
pub open spec fn completions(messages: Seq<WorkerMessage>) -> nat {
    messages.filter(|message: WorkerMessage| message is TaskComplete).len()
}

/// The keys of the closures that `messages` launch on the main thread, oldest first.
pub open spec fn main_keys(messages: Seq<WorkerMessage>) -> Seq<TaskKey>
    decreases messages.len(),
{
    if messages.len() == 0 {
        Seq::empty()
    } else {
        match messages.last() {
            WorkerMessage::LaunchTaskSync(key, true) => main_keys(messages.drop_last()).push(key),
            _ => main_keys(messages.drop_last()),
        }
    }
}

/// Whether `messages` keep to what a program may do: it launches no more closures than there are
/// identifiers for, and reports a task complete only once, after it was launched.
pub open spec fn orderly(messages: Seq<WorkerMessage>) -> bool {
    &&& launches(messages) <= TaskId::MAX
    &&& forall|i: int|
        0 <= i < messages.len() ==> (#[trigger] messages[i] matches WorkerMessage::TaskComplete(id)
            ==> id < launches(messages.take(i)) && !messages.take(i).contains(
            WorkerMessage::TaskComplete(id),
        ))
}

/// One more message is one more launch, or none.
proof fn lemma_launches_step(messages: Seq<WorkerMessage>)
    requires
        messages.len() > 0,
    ensures
        launches(messages) == launches(messages.drop_last()) + (if messages.last()
            is LaunchTaskSync {
            1nat
        } else {
            0nat
        }),
{
    reveal(Seq::filter);
}

/// What is among the messages is the last of them, or was among them before.
proof fn lemma_contains_step(messages: Seq<WorkerMessage>, message: WorkerMessage)
    requires
        messages.len() > 0,
    ensures
        messages.contains(message) <==> messages.drop_last().contains(message) || messages.last()
            == message,
{
    let before = messages.drop_last();
    if before.contains(message) {
        let i = choose|i: int| 0 <= i < before.len() && before[i] == message;
        assert(messages[i] == message);
    }
    if messages.contains(message) {
        let i = choose|i: int| 0 <= i < messages.len() && messages[i] == message;
        if i < before.len() {
            assert(before[i] == message);
        }
    }
    assert(messages[messages.len() - 1] == messages.last());
}

/// What the worker knows is what it was told: the next identifier is the number of closures
/// launched, a task is active if it was launched and not reported complete, and the main thread is
/// not marked as occupied.
pub proof fn law_worker_knows_what_it_was_told(messages: Seq<WorkerMessage>)
    requires
        accepted(WorkerView::initial(), messages),
    ensures
        run(WorkerView::initial(), messages).next_id == launches(messages),
        forall|id: TaskId|
            #![trigger run(WorkerView::initial(), messages).active.contains(id)]
            #![trigger messages.contains(WorkerMessage::TaskComplete(id))]
            run(WorkerView::initial(), messages).active.contains(id) <==> id < launches(messages)
                && !messages.contains(WorkerMessage::TaskComplete(id)),
        forall|id: TaskId| #[trigger]
            messages.contains(WorkerMessage::TaskComplete(id)) ==> id < launches(messages),
        run(WorkerView::initial(), messages).main_task is None,
    decreases messages.len(),
{
    if messages.len() == 0 {
        reveal(Seq::filter);
    } else {
        let before = messages.drop_last();
        let state = run(WorkerView::initial(), before);
        let next = run(WorkerView::initial(), messages);
        law_worker_knows_what_it_was_told(before);
        lemma_launches_step(messages);
        assert forall|id: TaskId| #[trigger]
            messages.contains(WorkerMessage::TaskComplete(id)) implies id < launches(messages) by {
            lemma_contains_step(messages, WorkerMessage::TaskComplete(id));
            assert(before.contains(WorkerMessage::TaskComplete(id)) || state.active.contains(id));
        }
        assert forall|id: TaskId|
            #![trigger next.active.contains(id)]
            #![trigger messages.contains(WorkerMessage::TaskComplete(id))]
            next.active.contains(id) <==> id < launches(messages) && !messages.contains(
                WorkerMessage::TaskComplete(id),
            ) by {
            lemma_contains_step(messages, WorkerMessage::TaskComplete(id));
            assert(state.active.contains(id) <==> id < launches(before) && !before.contains(
                WorkerMessage::TaskComplete(id),
            ));
            assert(before.contains(WorkerMessage::TaskComplete(id)) ==> id < launches(before));
        }
    }
}

/// A message is at fault only for a cause that the earlier messages give: a launch of a closure if
/// every identifier was given out, a report if that task was not launched or was reported before,
/// and the launch of a future never.
pub proof fn law_fault_has_its_cause(messages: Seq<WorkerMessage>, message: WorkerMessage)
    requires
        accepted(WorkerView::initial(), messages),
    ensures
        ({
            let fault = run(WorkerView::initial(), messages).fault(message);
            match message {
                WorkerMessage::LaunchTaskSync(_, _) => if launches(messages) < TaskId::MAX {
                    fault is None
                } else {
                    fault == Some(WorkerFault::TaskIdsExhausted)
                },
                WorkerMessage::LaunchTaskAsync(_) => fault is None,
                WorkerMessage::TaskComplete(id) => if id < launches(messages)
                    && !messages.contains(message) {
                    fault is None
                } else {
                    fault == Some(WorkerFault::UnknownTask(id))
                },
            }
        }),
{
    law_worker_knows_what_it_was_told(messages);
    if let WorkerMessage::TaskComplete(id) = message {
        assert(run(WorkerView::initial(), messages).active.contains(id) <==> id < launches(messages)
            && !messages.contains(WorkerMessage::TaskComplete(id)));
    }
}

/// A worker accepts whatever a program may send it, and nothing else: any number of futures, as
/// many closures as there are identifiers, and each report of a task that was launched, once.
pub proof fn law_orderly_messages_are_accepted(messages: Seq<WorkerMessage>)
    ensures
        accepted(WorkerView::initial(), messages) <==> orderly(messages),
    decreases messages.len(),
{
    if messages.len() == 0 {
        reveal(Seq::filter);
    } else {
        let before = messages.drop_last();
        let n = before.len() as int;
        law_orderly_messages_are_accepted(before);
        lemma_launches_step(messages);
        assert(messages.take(n) =~= before);
        assert forall|i: int| 0 <= i < n implies #[trigger] messages.take(i) == before.take(i) by {
            assert(messages.take(i) =~= before.take(i));
        }
        if orderly(messages) {
            assert forall|i: int| 0 <= i < n implies (#[trigger] before[i] matches
                WorkerMessage::TaskComplete(id) ==> id < launches(before.take(i)) && !before.take(
                i,
            ).contains(WorkerMessage::TaskComplete(id))) by {
                assert(messages[i] == before[i]);
                assert(messages.take(i) == before.take(i));
            }
            assert(orderly(before));
            assert(messages[n] == messages.last());
            law_fault_has_its_cause(before, messages.last());
        }
        if accepted(WorkerView::initial(), messages) {
            law_fault_has_its_cause(before, messages.last());
            assert forall|i: int| 0 <= i < messages.len() implies (#[trigger] messages[i] matches
                WorkerMessage::TaskComplete(id) ==> id < launches(messages.take(i))
                && !messages.take(i).contains(WorkerMessage::TaskComplete(id))) by {
                if i < n {
                    assert(messages[i] == before[i]);
                    assert(messages.take(i) == before.take(i));
                }
            }
        }
    }
}

/// Launches alone are always accepted, as long as there are identifiers: no closure and no future
/// that a program launches is at fault for what was launched before it.
pub proof fn law_launches_are_accepted(messages: Seq<WorkerMessage>)
    requires
        messages.len() <= TaskId::MAX,
        forall|i: int| 0 <= i < messages.len() ==> !(#[trigger] messages[i] is TaskComplete),
    ensures
        accepted(WorkerView::initial(), messages),
{
    lemma_launches_bound(messages);
    law_orderly_messages_are_accepted(messages);
}

/// There are no more launches than messages.
proof fn lemma_launches_bound(messages: Seq<WorkerMessage>)
    ensures
        launches(messages) <= messages.len(),
    decreases messages.len(),
{
    if messages.len() > 0 {
        lemma_launches_step(messages);
        lemma_launches_bound(messages.drop_last());
    } else {
        reveal(Seq::filter);
    }
}

/// In any state, a launch is at fault only if no identifier is left, or if it needs the main thread
/// and that is marked as occupied. What it launches does not matter. A future is never at fault,
/// and a report only if its task is not active.
pub proof fn law_fault_in_any_state(
    state: WorkerView,
    key: TaskKey,
    main_required: bool,
    id: TaskId,
)
    ensures
        state.next_id < TaskId::MAX && (state.main_task is None || !main_required) ==> state.fault(
            WorkerMessage::LaunchTaskSync(key, main_required),
        ) is None,
        state.next_id == TaskId::MAX ==> state.fault(
            WorkerMessage::LaunchTaskSync(key, main_required),
        ) == Some(WorkerFault::TaskIdsExhausted),
        state.next_id < TaskId::MAX && state.main_task is Some && main_required ==> state.fault(
            WorkerMessage::LaunchTaskSync(key, main_required),
        ) == Some(WorkerFault::MainTaskRunning),
        state.fault(WorkerMessage::LaunchTaskAsync(key)) is None,
        state.active.contains(id) ==> state.fault(WorkerMessage::TaskComplete(id)) is None,
        !state.active.contains(id) ==> state.fault(WorkerMessage::TaskComplete(id)) == Some(
            WorkerFault::UnknownTask(id),
        ),
{
}

/// In any state, a message changes what it speaks of and nothing else. A launch makes its own task
/// active, and is handed to the main thread only if it needs it. A future leaves the tasks alone. A
/// report ends its own task, and frees the main thread if that task occupied it. Nothing opens a
/// worker that is closed, and none closes while a task is active.
pub proof fn law_message_changes_its_own_task(
    state: WorkerView,
    message: WorkerMessage,
    other: TaskId,
)
    requires
        state.fault(message) is None,
    ensures
        ({
            let next = state.step(message);
            &&& next.closed == (state.closed || next.active =~= Set::empty())
            &&& match message {
                WorkerMessage::LaunchTaskSync(key, main_required) => {
                    &&& next.active.contains(state.next_id)
                    &&& other != state.next_id ==> next.active.contains(other)
                        == state.active.contains(other)
                    &&& next.next_id == state.next_id + 1
                    &&& next.main_task == state.main_task
                    &&& main_required ==> next.to_main.len() == state.to_main.len() + 1
                        && next.to_main.last() == MainMessage::RunTaskSync(key, state.next_id)
                        && next.to_main.drop_last() == state.to_main
                    &&& !main_required ==> next.to_main == state.to_main
                },
                WorkerMessage::LaunchTaskAsync(_) => {
                    &&& next.active == state.active
                    &&& next.next_id == state.next_id
                    &&& next.main_task == state.main_task
                    &&& next.to_main == state.to_main
                },
                WorkerMessage::TaskComplete(id) => {
                    &&& !next.active.contains(id)
                    &&& other != id ==> next.active.contains(other) == state.active.contains(other)
                    &&& next.next_id == state.next_id
                    &&& next.main_task != Some(id)
                    &&& state.main_task != Some(id) ==> next.main_task == state.main_task
                    &&& state.main_task == Some(id) ==> next.main_task is None
                    &&& next.to_main == state.to_main
                },
            }
        }),
{
    if let WorkerMessage::LaunchTaskSync(_, true) = message {
        assert(state.step(message).to_main.drop_last() =~= state.to_main);
    }
}

/// What `messages` hand to the main thread: each closure that needs it, under the number of
/// closures launched before.
pub open spec fn main_messages(messages: Seq<WorkerMessage>) -> Seq<MainMessage>
    decreases messages.len(),
{
    if messages.len() == 0 {
        Seq::empty()
    } else {
        let before = messages.drop_last();
        match messages.last() {
            WorkerMessage::LaunchTaskSync(key, true) => main_messages(before).push(
                MainMessage::RunTaskSync(key, launches(before) as TaskId),
            ),
            _ => main_messages(before),
        }
    }
}

/// The keys of the futures that `messages` launch, oldest first.
pub open spec fn future_keys(messages: Seq<WorkerMessage>) -> Seq<TaskKey>
    decreases messages.len(),
{
    if messages.len() == 0 {
        Seq::empty()
    } else {
        match messages.last() {
            WorkerMessage::LaunchTaskAsync(key) => future_keys(messages.drop_last()).push(key),
            _ => future_keys(messages.drop_last()),
        }
    }
}

/// The keys of the futures that `steps` have run, oldest first.
pub open spec fn spawned_keys(steps: Seq<WorkerStep>) -> Seq<TaskKey>
    decreases steps.len(),
{
    if steps.len() == 0 {
        Seq::empty()
    } else {
        match steps.last() {
            WorkerStep::Continue(WorkerAction::SpawnAsync(key)) => spawned_keys(
                steps.drop_last(),
            ).push(key),
            _ => spawned_keys(steps.drop_last()),
        }
    }
}

/// The closures that `messages` launch off the main thread, each with its key and the number of
/// closures launched before, oldest first.
pub open spec fn thread_tasks(messages: Seq<WorkerMessage>) -> Seq<(TaskKey, TaskId)>
    decreases messages.len(),
{
    if messages.len() == 0 {
        Seq::empty()
    } else {
        let before = messages.drop_last();
        match messages.last() {
            WorkerMessage::LaunchTaskSync(key, false) => thread_tasks(before).push(
                (key, launches(before) as TaskId),
            ),
            _ => thread_tasks(before),
        }
    }
}

/// The closures that `steps` have run on threads of their own, oldest first.
pub open spec fn spawned_tasks(steps: Seq<WorkerStep>) -> Seq<(TaskKey, TaskId)>
    decreases steps.len(),
{
    if steps.len() == 0 {
        Seq::empty()
    } else {
        match steps.last() {
            WorkerStep::Continue(WorkerAction::SpawnThread(key, id, _)) => spawned_tasks(
                steps.drop_last(),
            ).push((key, id)),
            _ => spawned_tasks(steps.drop_last()),
        }
    }
}

/// Every launch is carried out, once and in order: the futures that were launched are those that
/// are run, the closures off the main thread those that get a thread, and those on it those that
/// the main thread is handed; each under its own key, and each closure under the number of closures
/// before it.
pub proof fn law_every_launch_is_carried_out(
    messages: Seq<WorkerMessage>,
    states: Seq<WorkerView>,
    steps: Seq<WorkerStep>,
)
    requires
        accepted(WorkerView::initial(), messages),
        states.len() == messages.len() + 1,
        steps.len() == messages.len(),
        states[0] == WorkerView::initial(),
        forall|i: int|
            0 <= i < messages.len() ==> answered(
                states[i],
                Some(#[trigger] messages[i]),
                states[i + 1],
                Ok(steps[i]),
            ),
    ensures
        states.last() == run(WorkerView::initial(), messages),
        spawned_keys(steps) == future_keys(messages),
        spawned_tasks(steps) == thread_tasks(messages),
        states.last().to_main == main_messages(messages),
    decreases messages.len(),
{
    if messages.len() > 0 {
        let n = messages.len() - 1;
        let before = messages.drop_last();
        assert forall|i: int| 0 <= i < before.len() implies answered(
            states.drop_last()[i],
            Some(#[trigger] before[i]),
            states.drop_last()[i + 1],
            Ok(steps.drop_last()[i]),
        ) by {
            assert(messages[i] == before[i]);
        }
        law_every_launch_is_carried_out(before, states.drop_last(), steps.drop_last());
        law_worker_knows_what_it_was_told(before);
        assert(answered(states[n], Some(messages[n]), states[n + 1], Ok(steps[n])));
    }
}

/// What is sent is queued, once and last, and what is refused comes back and leaves nothing behind.
pub proof fn law_sent_message_is_queued(
    before: Seq<WorkerMessage>,
    message: WorkerMessage,
    after: Seq<WorkerMessage>,
    r: Result<(), WorkerMessage>,
)
    requires
        posted(before, message, after, r),
    ensures
        r is Ok ==> after.len() == before.len() + 1 && after.last() == message && after.drop_last()
            == before,
        r matches Err(returned) ==> returned == message && after == before,
{
    if r is Ok {
        assert(after.drop_last() =~= before);
    }
}

/// A launch is refused only by a worker that takes nothing any more: an open one takes every
/// closure and every future, whatever its key, and has it queued.
pub proof fn law_open_worker_takes_every_launch(
    before: Handle,
    task: TaskKey,
    with_closure: Handle,
    closure: Result<(), WorkerMessage>,
    with_future: Handle,
    future: Result<(), WorkerMessage>,
)
    requires
        sent_by(before, closure_message(task), with_closure, closure),
        sent_by(before, future_message(task), with_future, future),
        forall|rx: UnboundedReceiver<WorkerMessage>| #[trigger]
            feeds_worker(before.worker_tx, rx) ==> !intake_closed(rx),
    ensures
        closure is Ok,
        with_closure.sent() == before.sent().push(WorkerMessage::LaunchTaskSync(task, true)),
        future is Ok,
        with_future.sent() == before.sent().push(WorkerMessage::LaunchTaskAsync(task)),
        with_closure.terminate_flag == before.terminate_flag,
        with_future.terminate_flag == before.terminate_flag,
{
}

/// A report is refused only by a worker that takes nothing any more.
pub proof fn law_open_worker_takes_every_message(
    tx: UnboundedSender<WorkerMessage>,
    message: WorkerMessage,
    after: Seq<WorkerMessage>,
    r: Result<(), WorkerMessage>,
)
    requires
        posted(queued_work(tx), message, after, r),
        taken_while_open(tx, r),
        forall|rx: UnboundedReceiver<WorkerMessage>| #[trigger]
            feeds_worker(tx, rx) ==> !intake_closed(rx),
    ensures
        r is Ok,
        after == queued_work(tx).push(message),
{
}

/// A launch fails on a channel only for a cause: never while the main thread has taken enough of
/// what it was sent and more is still to come, and never while the worker is open.
pub proof fn law_launch_fails_only_on_its_channel(
    before: AsyncWorker,
    message: WorkerMessage,
    after: WorkerView,
    r: Result<WorkerStep, WorkerFault>,
)
    requires
        answered(before@, Some(message), after, r),
        r matches Err(fault) ==> channel_failed(before, fault),
        sole_main_sender(before.main_tx),
        forall|rx: Receiver<MainMessage>| #[trigger]
            feeds_main(before.main_tx, rx) ==> taken_main(rx).len() + main_capacity(before.main_tx)
                > queued_main(before.main_tx).len(),
        main_traffic(before.main_tx) != queued_main(before.main_tx),
        forall|rx: UnboundedReceiver<WorkerMessage>| #[trigger]
            weakly_feeds_worker(before.worker_weak_tx, rx) ==> !intake_closed(rx),
    ensures
        r is Ok,
{
}

/// A launch of a future, and the report of a task, fail on no channel. A launch of a closure fails
/// on the channel that it needs.
pub proof fn law_only_closures_need_a_channel(
    before: WorkerView,
    message: WorkerMessage,
    after: WorkerView,
    r: Result<WorkerStep, WorkerFault>,
)
    requires
        answered(before, Some(message), after, r),
    ensures
        !(message is LaunchTaskSync) ==> r is Ok,
        message matches WorkerMessage::LaunchTaskSync(_, true) ==> (r matches Err(fault) ==> fault
            is MainChannelFull || fault is MainChannelClosed),
        message matches WorkerMessage::LaunchTaskSync(_, false) ==> (r matches Err(fault) ==> fault
            is WorkerChannelGone),
{
}

/// The main thread runs the task that it is told to, and leaves exactly if it is told to end or
/// nothing more can come.
pub proof fn law_main_thread_does_as_told(received: Option<MainMessage>)
    ensures
        step_for(received) is Return <==> received is None || received == Some(
            MainMessage::Terminate,
        ),
        forall|key: TaskKey, id: TaskId| #[trigger]
            step_for(Some(MainMessage::RunTaskSync(key, id))) == MainStep::RunTask(key, id),
{
}

/// Identifiers only grow, and the active ones stay below the next, whatever messages come.
pub proof fn law_ids_grow(state: WorkerView, messages: Seq<WorkerMessage>)
    requires
        state.wf(),
        accepted(state, messages),
    ensures
        run(state, messages).wf(),
        state.next_id <= run(state, messages).next_id,
    decreases messages.len(),
{
    if messages.len() > 0 {
        law_ids_grow(state, messages.drop_last());
    }
}

/// An identifier that was given out and is not active is never active again.
pub proof fn law_ids_are_not_reused(
    state: WorkerView,
    messages: Seq<WorkerMessage>,
    id: TaskId,
)
    requires
        state.wf(),
        accepted(state, messages),
        id < state.next_id,
        !state.active.contains(id),
    ensures
        !run(state, messages).active.contains(id),
    decreases messages.len(),
{
    if messages.len() > 0 {
        law_ids_are_not_reused(state, messages.drop_last(), id);
        law_ids_grow(state, messages.drop_last());
    }
}

/// A task is reported complete once: whatever comes after, a second report is at fault.
pub proof fn law_task_completes_once(
    state: WorkerView,
    id: TaskId,
    messages: Seq<WorkerMessage>,
)
    requires
        state.wf(),
        state.fault(WorkerMessage::TaskComplete(id)) is None,
        accepted(state.step(WorkerMessage::TaskComplete(id)), messages),
    ensures
        run(state.step(WorkerMessage::TaskComplete(id)), messages).fault(
            WorkerMessage::TaskComplete(id),
        ) == Some(WorkerFault::UnknownTask(id)),
{
    law_ids_are_not_reused(state.step(WorkerMessage::TaskComplete(id)), messages, id);
}

/// The completion of a task undoes its launch: it is accepted, and the active tasks are those from
/// before.
pub proof fn law_completion_undoes_launch(state: WorkerView, key: TaskKey, main_required: bool)
    requires
        state.wf(),
        state.fault(WorkerMessage::LaunchTaskSync(key, main_required)) is None,
    ensures
        ({
            let launched = state.step(WorkerMessage::LaunchTaskSync(key, main_required));
            let complete = WorkerMessage::TaskComplete(state.next_id);
            &&& launched.fault(complete) is None
            &&& launched.step(complete).active == state.active
        }),
{
    assert(state.active.insert(state.next_id).remove(state.next_id) =~= state.active);
}

/// The worker closes as soon as a message leaves no task active, and at no other time.
pub proof fn law_worker_closes_when_idle(state: WorkerView, messages: Seq<WorkerMessage>)
    requires
        !state.closed,
    ensures
        run(state, messages).closed <==> exists|n: int|
            0 < n <= messages.len() && #[trigger] run(state, messages.take(n)).active
                =~= Set::empty(),
    decreases messages.len(),
{
    if messages.len() > 0 {
        let before = messages.drop_last();
        law_worker_closes_when_idle(state, before);
        assert(messages.take(messages.len() as int) =~= messages);
        assert forall|n: int| 0 < n <= before.len() implies #[trigger] messages.take(n)
            == before.take(n) by {
            assert(messages.take(n) =~= before.take(n));
        }
        if run(state, messages).closed {
            if run(state, before).closed {
                let n = choose|n: int|
                    0 < n <= before.len() && #[trigger] run(state, before.take(n)).active
                        =~= Set::empty();
                assert(messages.take(n) == before.take(n));
            } else {
                assert(run(state, messages.take(messages.len() as int)).active =~= Set::empty());
            }
        }
        if exists|n: int|
            0 < n <= messages.len() && #[trigger] run(state, messages.take(n)).active
                =~= Set::empty() {
            let n = choose|n: int|
                0 < n <= messages.len() && #[trigger] run(state, messages.take(n)).active
                    =~= Set::empty();
            if n < messages.len() {
                assert(messages.take(n) == before.take(n));
            }
        }
    }
}

/// No message marks the main thread as occupied, so no launch is ever at fault for that.
pub proof fn law_main_thread_is_never_marked(
    state: WorkerView,
    messages: Seq<WorkerMessage>,
    message: WorkerMessage,
)
    requires
        state.main_task is None,
    ensures
        run(state, messages).main_task is None,
        run(state, messages).fault(message) != Some(WorkerFault::MainTaskRunning),
    decreases messages.len(),
{
    if messages.len() > 0 {
        law_main_thread_is_never_marked(state, messages.drop_last(), message);
    }
}

/// The active tasks are the launched ones less the completed ones.
pub proof fn law_active_tasks_balance(state: WorkerView, messages: Seq<WorkerMessage>)
    requires
        state.wf(),
        state.active.finite(),
        accepted(state, messages),
    ensures
        run(state, messages).active.finite(),
        run(state, messages).active.len() + completions(messages) == state.active.len() + launches(
            messages,
        ),
    decreases messages.len(),
{
    if messages.len() > 0 {
        let before = messages.drop_last();
        law_active_tasks_balance(state, before);
        law_ids_grow(state, before);
        assert(messages =~= before.push(messages.last()));
        reveal(Seq::filter);
    } else {
        reveal(Seq::filter);
    }
}

/// The main thread is handed exactly the closures that need it, in the order of their launches and
/// under growing identifiers.
pub proof fn law_main_thread_gets_its_tasks(messages: Seq<WorkerMessage>)
    requires
        accepted(WorkerView::initial(), messages),
    ensures
        ({
            let state = run(WorkerView::initial(), messages);
            let keys = main_keys(messages);
            &&& state.to_main.len() == keys.len()
            &&& forall|i: int|
                0 <= i < keys.len() ==> {
                    &&& #[trigger] state.to_main[i] matches MainMessage::RunTaskSync(key, id)
                    &&& key == keys[i]
                    &&& id < state.next_id
                }
            &&& forall|i: int, j: int|
                0 <= i < j < keys.len() ==> (#[trigger] state.to_main[i])->RunTaskSync_1 < (
                #[trigger] state.to_main[j])->RunTaskSync_1
        }),
    decreases messages.len(),
{
    if messages.len() > 0 {
        law_main_thread_gets_its_tasks(messages.drop_last());
    }
}

/// A worker that meets no fault processes every message once, in order, and only then, and once,
/// tells the main thread to end.
pub proof fn law_worker_processes_every_message(
    messages: Seq<WorkerMessage>,
    states: Seq<WorkerView>,
    steps: Seq<WorkerStep>,
    after: WorkerView,
    last: Result<WorkerStep, WorkerFault>,
)
    requires
        states.len() == messages.len() + 1,
        steps.len() == messages.len(),
        forall|i: int|
            0 <= i < messages.len() ==> answered(
                states[i],
                Some(#[trigger] messages[i]),
                states[i + 1],
                Ok(steps[i]),
            ),
        answered(states.last(), None, after, last),
    ensures
        after == run(states[0], messages),
        forall|i: int| 0 <= i < steps.len() ==> #[trigger] steps[i] is Continue,
        last == Ok::<WorkerStep, WorkerFault>(WorkerStep::Finish(MainMessage::Terminate)),
    decreases messages.len(),
{
    if messages.len() > 0 {
        let n = messages.len() - 1;
        let earlier = messages.drop_last();
        assert forall|i: int| 0 <= i < earlier.len() implies answered(
            states.drop_last()[i],
            Some(#[trigger] earlier[i]),
            states.drop_last()[i + 1],
            Ok(steps.drop_last()[i]),
        ) by {
            assert(messages[i] == earlier[i]);
        }
        law_worker_processes_every_message(
            earlier,
            states.drop_last(),
            steps.drop_last(),
            states[n],
            last,
        );
        assert(answered(states[n], Some(messages[n]), states[n + 1], Ok(steps[n])));
        assert forall|i: int| 0 <= i < steps.len() implies #[trigger] steps[i] is Continue by {
            if i < n {
                assert(steps.drop_last()[i] is Continue);
            }
        }
    }
}

/// The main thread runs the closures that were launched on it in the order of their launches: as
/// far as both have come, what it takes is what the worker has handed to it.
pub proof fn law_main_thread_keeps_the_order(
    messages: Seq<WorkerMessage>,
    traffic: Seq<MainMessage>,
    taken: Seq<MainMessage>,
    exhausted: bool,
)
    requires
        accepted(WorkerView::initial(), messages),
        run(WorkerView::initial(), messages).to_main.is_prefix_of(traffic),
        delivered(traffic, taken, exhausted),
    ensures
        forall|i: int|
            0 <= i < taken.len() && i < main_keys(messages).len() ==> (step_for(
                Some(#[trigger] taken[i]),
            ) matches MainStep::RunTask(key, _) && key == main_keys(messages)[i]),
        exhausted ==> taken.len() >= main_keys(messages).len(),
{
    let to_main = run(WorkerView::initial(), messages).to_main;
    law_main_thread_gets_its_tasks(messages);
    assert forall|i: int| 0 <= i < taken.len() && i < to_main.len() implies #[trigger] taken[i]
        == to_main[i] by {
        assert(taken[i] == traffic[i]);
        assert(to_main[i] == traffic[i]);
    }
}

/// The main thread runs exactly the closures that were launched on it, each once and in the order
/// of their launches, if it leaves its loop and the worker has ended it: that is, if the last
/// message that went through the channel tells it to end, after all that the worker has handed to
/// it.
pub proof fn law_main_thread_runs_each_task_once(
    messages: Seq<WorkerMessage>,
    traffic: Seq<MainMessage>,
    taken: Seq<MainMessage>,
    exhausted: bool,
)
    requires
        accepted(WorkerView::initial(), messages),
        traffic == run(WorkerView::initial(), messages).to_main.push(MainMessage::Terminate),
        delivered(traffic, taken, exhausted),
        exhausted || (taken.len() > 0 && step_for(Some(taken.last())) is Return),
    ensures
        taken.len() == main_keys(messages).len() + 1,
        forall|i: int|
            0 <= i < main_keys(messages).len() ==> (step_for(Some(#[trigger] taken[i])) matches
                MainStep::RunTask(key, _) && key == main_keys(messages)[i]),
        forall|i: int, j: int|
            0 <= i < j < main_keys(messages).len() ==> step_for(Some(#[trigger] taken[i]))->1
                < step_for(Some(#[trigger] taken[j]))->1,
        step_for(Some(taken.last())) is Return,
{
    let to_main = run(WorkerView::initial(), messages).to_main;
    law_main_thread_gets_its_tasks(messages);
    if !exhausted && taken.len() <= to_main.len() {
        assert(taken.last() == traffic[taken.len() - 1]);
        assert(taken.last() == to_main[taken.len() - 1]);
    }
    assert(taken =~= traffic);
    assert forall|i: int| 0 <= i < to_main.len() implies #[trigger] taken[i] == to_main[i] by {}
}

/// A task that is active stays so until it is reported complete.
pub proof fn law_task_stays_active(
    state: WorkerView,
    messages: Seq<WorkerMessage>,
    id: TaskId,
)
    requires
        state.active.contains(id),
        !messages.contains(WorkerMessage::TaskComplete(id)),
    ensures
        run(state, messages).active.contains(id),
    decreases messages.len(),
{
    if messages.len() > 0 {
        let before = messages.drop_last();
        assert(messages[messages.len() - 1] == messages.last());
        assert forall|i: int| 0 <= i < before.len() implies before[i]
            != WorkerMessage::TaskComplete(id) by {
            assert(messages[i] == before[i]);
        }
        law_task_stays_active(state, before, id);
    }
}

/// The report of the main thread is not at fault: a task that it was handed may be reported
/// complete, unless it has been.
pub proof fn law_main_thread_may_report(messages: Seq<WorkerMessage>, n: int)
    requires
        accepted(WorkerView::initial(), messages),
        0 <= n < run(WorkerView::initial(), messages).to_main.len(),
    ensures
        run(WorkerView::initial(), messages).to_main[n] matches MainMessage::RunTaskSync(_, id) && (
        messages.contains(WorkerMessage::TaskComplete(id)) || run(
            WorkerView::initial(),
            messages,
        ).fault(WorkerMessage::TaskComplete(id)) is None),
    decreases messages.len(),
{
    if messages.len() > 0 {
        let before = messages.drop_last();
        let state = run(WorkerView::initial(), before);
        assert(messages[messages.len() - 1] == messages.last());
        if n < state.to_main.len() {
            law_main_thread_may_report(before, n);
            let id = state.to_main[n]->RunTaskSync_1;
            if before.contains(WorkerMessage::TaskComplete(id)) {
                let i = choose|i: int|
                    0 <= i < before.len() && before[i] == WorkerMessage::TaskComplete(id);
                assert(messages[i] == WorkerMessage::TaskComplete(id));
            }
        }
    }
}

}
