//! Background tasks, the handles on their results, and the signal that stops them.

use tokio::sync::mpsc::{UnboundedReceiver, UnboundedSender};
use tokio::sync::oneshot;
use tokio::task::JoinHandle;
use tokio_util::sync::CancellationToken;
use vstd::prelude::*;

use crate::channel::{
    clone_registry_sender, close_registry, feeds_registry, is_finished, looked_at, registered,
    registry_channel, registry_closed, same_task, send_task, send_task_to,
};
use crate::task_result::{await_result, poll_result, Polled, ResultReceiver};
use crate::token::{
    asked, cancel, cancels, is_cancelled, is_same_signal, keeps_signal, same_signal, signal_pair,
    stop_requested,
};

verus! {

/// How far a task has come.
#[derive(Copy, Clone, Debug, PartialEq, Eq, Structural)]
pub enum TaskStatus {
    Pending,
    Complete,
    Error,
}

/// The task ended without a result.
#[derive(Copy, Clone, Debug, PartialEq, Eq, Structural)]
pub struct TaskPanicked;

/// The status of a task with the given outcome, if it has one.
pub open spec fn status_of<T>(outcome: Option<Result<T, TaskPanicked>>) -> TaskStatus {
    match outcome {
        None => TaskStatus::Pending,
        Some(Ok(_)) => TaskStatus::Complete,
        Some(Err(_)) => TaskStatus::Error,
    }
}

/// A task as a value.
pub struct TaskView<T> {
    /// What the task comes to, whenever that shows.
    pub result: Result<T, TaskPanicked>,
    /// The same, if it is known here already.
    pub outcome: Option<Result<T, TaskPanicked>>,
}

/// Whether a look at a task may answer `status` and take what is known of it from `before` to
/// `after`. What the task comes to does not change, and a known outcome stays known.
pub open spec fn looked<T>(before: TaskView<T>, status: TaskStatus, after: TaskView<T>) -> bool {
    &&& status == status_of(after.outcome)
    &&& after.result == before.result
    &&& before.outcome is Some ==> after.outcome == before.outcome
    &&& after.outcome matches Some(outcome) ==> outcome == after.result
}

/// The result of a task that may still be running.
pub trait TaskHandleInterface<T>: Sized {
    /// The task, as a value.
    spec fn task(&self) -> TaskView<T>;

    /// Looks whether the task has ended. A known outcome does not change.
    fn status(&mut self) -> (status: TaskStatus)
        ensures
            looked(old(self).task(), status, final(self).task()),
    ;

    /// What the task comes to, waited for if it is not known yet. Not for use inside an executor,
    /// which must not be blocked.
    fn join(self) -> (r: Result<T, TaskPanicked>)
        ensures
            r == self.task().result,
    ;
}

/// What is known of a task.
#[verifier::reject_recursive_types(T)]
pub enum TaskHandleState<T> {
    Pending(ResultReceiver<T>),
    Complete(T),
    Error,
}

impl<T> TaskHandleState<T> {
    /// The outcome, if it is known.
    pub open spec fn outcome(self) -> Option<Result<T, TaskPanicked>> {
        match self {
            TaskHandleState::Pending(_) => None,
            TaskHandleState::Complete(result) => Some(Ok(result)),
            TaskHandleState::Error => Some(Err(TaskPanicked)),
        }
    }

    /// What the task comes to: the result that it sends, or a panic, if it sends none.
    pub open spec fn result(self) -> Result<T, TaskPanicked> {
        match self {
            TaskHandleState::Pending(receiver) => match receiver.gives() {
                Some(result) => Ok(result),
                None => Err(TaskPanicked),
            },
            TaskHandleState::Complete(result) => Ok(result),
            TaskHandleState::Error => Err(TaskPanicked),
        }
    }

    /// What is known after a look into the channel of a pending task has found `polled`.
    pub fn after_poll(polled: Polled<T>) -> (state: Self)
        ensures
            state == match polled {
                Polled::Received(result) => TaskHandleState::Complete(result),
                Polled::Empty(receiver) => TaskHandleState::Pending(receiver),
                Polled::Closed => TaskHandleState::Error,
            },
    {
        match polled {
            Polled::Received(result) => TaskHandleState::Complete(result),
            Polled::Empty(receiver) => TaskHandleState::Pending(receiver),
            Polled::Closed => TaskHandleState::Error,
        }
    }

    /// The status that goes with the state.
    pub fn status(&self) -> (status: TaskStatus)
        ensures
            status == status_of(self.outcome()),
    {
        match self {
            TaskHandleState::Pending(_) => TaskStatus::Pending,
            TaskHandleState::Complete(_) => TaskStatus::Complete,
            TaskHandleState::Error => TaskStatus::Error,
        }
    }
}

/// What a wait for a pending task gives, by what its channel answered: a task that is gone without
/// a result has panicked.
pub fn joined<T>(received: Result<T, oneshot::error::RecvError>) -> (r: Result<T, TaskPanicked>)
    ensures
        r == match received {
            Ok(result) => Ok::<T, TaskPanicked>(result),
            Err(_) => Err(TaskPanicked),
        },
{
    match received {
        Ok(result) => Ok(result),
        Err(_) => Err(TaskPanicked),
    }
}

/// The handle on a task that sends its result over a channel.
#[verifier::reject_recursive_types(T)]
pub struct TaskHandle<T> {
    pub state: TaskHandleState<T>,
}

impl<T> TaskHandle<T> {
    /// The handle on the task whose result arrives at `receiver`.
    pub fn new(receiver: ResultReceiver<T>) -> (handle: Self)
        ensures
            handle.state == TaskHandleState::Pending(receiver),
        opens_invariants none
    {
        TaskHandle { state: TaskHandleState::Pending(receiver) }
    }
}

impl<T> TaskHandleInterface<T> for TaskHandle<T> {
    open spec fn task(&self) -> TaskView<T> {
        TaskView { result: self.state.result(), outcome: self.state.outcome() }
    }

    fn status(&mut self) -> (status: TaskStatus)
        ensures
            match old(self).state {
                TaskHandleState::Pending(before) => match final(self).state {
                    TaskHandleState::Pending(after) => {
                        &&& after.sender() == before.sender()
                        &&& after.looks() == before.looks() + 1
                        &&& after.gives() == before.gives()
                    },
                    TaskHandleState::Complete(result) => before.gives() == Some(result),
                    TaskHandleState::Error => before.gives() is None,
                },
                _ => *final(self) == *old(self),
            },
    {
        let mut state = TaskHandleState::Error;
        core::mem::swap(&mut self.state, &mut state);
        state = match state {
            TaskHandleState::Pending(receiver) => TaskHandleState::after_poll(
                poll_result(receiver),
            ),
            state => state,
        };
        let status = state.status();
        self.state = state;
        status
    }

    fn join(self) -> (r: Result<T, TaskPanicked>) {
        match self.state {
            TaskHandleState::Pending(receiver) => joined(await_result(receiver)),
            TaskHandleState::Complete(result) => Ok(result),
            TaskHandleState::Error => Err(TaskPanicked),
        }
    }
}

/// The signal that asks the tasks to stop.
pub trait HandleInterface: Clone {
    /// Whether a stop is known to have been asked for.
    spec fn stopping(&self) -> bool;

    /// Whether it was asked for through this handle.
    spec fn asked(&self) -> bool;

    /// Asks every task to stop.
    fn stop(&mut self)
        ensures
            final(self).stopping(),
            final(self).asked(),
        opens_invariants cancels(true)
    ;

    /// Whether a stop has been asked for. Once it has, or was seen to have been, this holds for
    /// good.
    fn should_stop(&mut self) -> (r: bool)
        ensures
            r == final(self).stopping(),
            old(self).stopping() ==> r,
            final(self).asked() == old(self).asked(),
        opens_invariants none
    ;
}

/// Whether what is registered through `one` arrives where that registered through `other` does.
pub open spec fn same_registry(
    one: UnboundedSender<JoinHandle<()>>,
    other: UnboundedSender<JoinHandle<()>>,
) -> bool {
    forall|rx: UnboundedReceiver<JoinHandle<()>>| #[trigger]
        feeds_registry(one, rx) == feeds_registry(other, rx)
}

/// Whether a handle may go from `before` to `after` in use: the signal stays the same, and a stop
/// stays asked for.
pub open spec fn used(before: Handle, after: Handle) -> bool {
    &&& keeps_signal(after.stop_token, before.stop_token)
    &&& same_registry(after.async_handle_tx, before.async_handle_tx)
    &&& before.stopping() ==> after.stopping()
    &&& before.asked() ==> after.asked()
}

/// Whether a comparison with `other` may answer `r` and take a handle from `before` to `after`: it
/// tells whether the two are stopped together, and if so, a stop that is known to `other` is from
/// then on known here too.
pub open spec fn compared(before: Handle, other: Handle, after: Handle, r: bool) -> bool {
    &&& r == same_signal(before.stop_token, other.stop_token)
    &&& after.stopping() == (before.stopping() || r && other.stopping())
    &&& after.asked() == before.asked()
}

/// Whether a launch of the task `spawned`, whose result arrives at `receiver`, may answer `r` and
/// take a handle from `before` to `after`. The task is registered, or comes back if none is taken
/// any more: if the registry was closed.
pub open spec fn launched_by<T>(
    before: Handle,
    spawned: JoinHandle<()>,
    receiver: ResultReceiver<T>,
    after: Handle,
    r: Result<TaskHandle<T>, JoinHandle<()>>,
) -> bool {
    &&& after.stop_token == before.stop_token
    &&& used(before, after)
    &&& match r {
        Ok(handle) => {
            &&& handle.state == TaskHandleState::Pending(receiver)
            &&& after.launched() == before.launched().push(spawned)
        },
        Err(returned) => {
            &&& returned == spawned
            &&& after.launched() == before.launched()
            &&& exists|rx: UnboundedReceiver<JoinHandle<()>>| #[trigger]
                feeds_registry(before.async_handle_tx, rx) && registry_closed(rx)
        },
    }
}

/// Launches tasks and stops them.
pub struct Handle {
    pub stop_token: CancellationToken,
    pub async_handle_tx: UnboundedSender<JoinHandle<()>>,
}

impl Handle {
    /// The tasks launched through this handle, oldest first.
    pub open spec fn launched(self) -> Seq<JoinHandle<()>> {
        registered(self.async_handle_tx)
    }

    /// Registers the task `spawned`, whose result arrives at `receiver`, and gives the handle on
    /// it. The task comes back if none is taken any more. No signal is cancelled.
    pub fn launch_task_async<T>(
        &mut self,
        spawned: JoinHandle<()>,
        receiver: ResultReceiver<T>,
    ) -> (r: Result<TaskHandle<T>, JoinHandle<()>>)
        ensures
            launched_by(*old(self), spawned, receiver, *final(self), r),
        opens_invariants none
    {
        match send_task(&mut self.async_handle_tx, spawned) {
            Ok(()) => Ok(TaskHandle::new(receiver)),
            Err(returned) => Err(returned),
        }
    }

    /// Whether this handle and `other` are stopped together.
    pub fn stops_with(&mut self, other: &Handle) -> (r: bool)
        ensures
            compared(*old(self), *other, *final(self), r),
            final(self).async_handle_tx == old(self).async_handle_tx,
            used(*old(self), *final(self)),
        opens_invariants none
    {
        is_same_signal(&mut self.stop_token, &other.stop_token)
    }
}

impl HandleInterface for Handle {
    open spec fn stopping(&self) -> bool {
        stop_requested(self.stop_token)
    }

    open spec fn asked(&self) -> bool {
        asked(self.stop_token)
    }

    fn stop(&mut self)
        ensures
            final(self).async_handle_tx == old(self).async_handle_tx,
            used(*old(self), *final(self)),
    {
        cancel(&mut self.stop_token);
    }

    fn should_stop(&mut self) -> (r: bool)
        ensures
            final(self).async_handle_tx == old(self).async_handle_tx,
            used(*old(self), *final(self)),
    {
        is_cancelled(&mut self.stop_token)
    }
}

/// A handle that is kept to stop the tasks, and for nothing else. It cannot be cloned, and does not
/// give the handle away, so that nobody stops the tasks through it without changing it.
pub struct Stopper {
    handle: Handle,
}

impl Stopper {
    /// The handle that is kept.
    pub closed spec fn handle(self) -> Handle {
        self.handle
    }

    /// Whether a stop is known to have been asked for.
    pub open spec fn stopping(self) -> bool {
        self.handle().stopping()
    }

    /// Whether it was asked for through this value.
    pub open spec fn asked(self) -> bool {
        self.handle().asked()
    }

    /// Keeps `handle`.
    pub fn new(handle: Handle) -> (stopper: Self)
        ensures
            stopper.handle() == handle,
        opens_invariants none
    {
        Stopper { handle }
    }

    /// Asks every task to stop.
    pub fn stop(&mut self)
        ensures
            final(self).stopping(),
            final(self).asked(),
            final(self).handle().async_handle_tx == old(self).handle().async_handle_tx,
            used(old(self).handle(), final(self).handle()),
        opens_invariants cancels(true)
    {
        self.handle.stop();
    }
}

/// What wakes the supervisor.
#[derive(Copy, Clone, Debug, PartialEq, Eq, Structural)]
pub enum InterruptKind {
    /// It is time to look at the tasks.
    Timeout,
    /// A stop was asked for; the flag says whether from outside, by a signal.
    Cancel(bool),
}

/// What the supervisor does next.
#[derive(Copy, Clone, Debug, PartialEq, Eq, Structural)]
pub enum SupervisorStep {
    /// Take the registered tasks, and register those again that still run.
    Sweep,
    /// Wait for the registered tasks, and end.
    Drain,
}

/// Keeps the launched tasks until they have ended.
pub struct Supervisor {
    pub stop_token: CancellationToken,
    pub async_handle_tx: UnboundedSender<JoinHandle<()>>,
    pub async_handle_rx: UnboundedReceiver<JoinHandle<()>>,
}

/// Those of `tasks` that are not `finished`, in their order.
pub open spec fn unfinished<T>(tasks: Seq<T>, finished: Seq<bool>) -> Seq<T>
    decreases tasks.len(),
{
    if tasks.len() == 0 {
        Seq::empty()
    } else {
        let rest = unfinished(tasks.drop_last(), finished.drop_last());
        if finished.last() {
            rest
        } else {
            rest.push(tasks.last())
        }
    }
}

/// Whether `looked` are `tasks` after one more look at each, which gave `answers`.
pub open spec fn seen(
    tasks: Seq<JoinHandle<()>>,
    looked: Seq<JoinHandle<()>>,
    answers: Seq<bool>,
) -> bool {
    &&& looked.len() == tasks.len()
    &&& answers.len() == tasks.len()
    &&& forall|i: int|
        0 <= i < tasks.len() ==> #[trigger] looked_at(tasks[i], answers[i], looked[i])
}

/// Whether a sweep over `tasks`, in which the looks gave `answers` and left the tasks as `looked`,
/// may answer `r` and take what was registered again from `before` to `after`: those that were not
/// seen to have ended are registered in their order, up to the first one that is not taken, which
/// comes back.
pub open spec fn swept_by(
    before: Seq<JoinHandle<()>>,
    tasks: Seq<JoinHandle<()>>,
    looked: Seq<JoinHandle<()>>,
    answers: Seq<bool>,
    after: Seq<JoinHandle<()>>,
    r: Result<(), JoinHandle<()>>,
) -> bool {
    let running = unfinished(looked, answers);
    &&& seen(tasks, looked, answers)
    &&& match r {
        Ok(()) => after == before + running,
        Err(returned) => exists|n: int|
            0 <= n < running.len() && returned == running[n] && after == before
                + #[trigger] running.take(n),
    }
}

/// Whether a sweep over `tasks` may answer `r` and take what was registered again from `before` to
/// `after`. What the looks answer is up to the tasks.
pub open spec fn swept(
    before: Seq<JoinHandle<()>>,
    tasks: Seq<JoinHandle<()>>,
    after: Seq<JoinHandle<()>>,
    r: Result<(), JoinHandle<()>>,
) -> bool {
    exists|looked: Seq<JoinHandle<()>>, answers: Seq<bool>| #[trigger]
        swept_by(before, tasks, looked, answers, after, r)
}

/// Whether the supervisor cancels its signal when `interrupt_kind` wakes it.
pub open spec fn passes_on(interrupt_kind: InterruptKind) -> bool {
    interrupt_kind == InterruptKind::Cancel(true)
}

/// Whether the supervisor `before`, woken by `interrupt_kind`, may answer `step` and become
/// `after`. A stop from outside is passed on to the tasks. After any stop no task is taken any
/// more.
pub open spec fn interrupted(
    before: Supervisor,
    interrupt_kind: InterruptKind,
    after: Supervisor,
    step: SupervisorStep,
) -> bool {
    &&& after.async_handle_tx == before.async_handle_tx
    &&& keeps_signal(after.stop_token, before.stop_token)
    &&& forall|tx: UnboundedSender<JoinHandle<()>>| #[trigger]
        feeds_registry(tx, after.async_handle_rx) == feeds_registry(tx, before.async_handle_rx)
    &&& match interrupt_kind {
        InterruptKind::Timeout => {
            &&& step is Sweep
            &&& after == before
        },
        InterruptKind::Cancel(external) => {
            &&& step is Drain
            &&& registry_closed(after.async_handle_rx)
            &&& external ==> stop_requested(after.stop_token) && asked(after.stop_token)
            &&& !external ==> after.stop_token == before.stop_token
        },
    }
}

/// Keeps those of `tasks` that are not `finished`, in their order.
pub fn keep_unfinished<T>(tasks: Vec<T>, finished: &Vec<bool>) -> (kept: Vec<T>)
    requires
        finished@.len() == tasks@.len(),
    ensures
        kept@ == unfinished(tasks@, finished@),
{
    let mut kept: Vec<T> = Vec::new();
    let mut index: usize = 0;
    let ghost all = tasks@;
    for task in it: tasks
        invariant
            it.seq() == all,
            index == it.index(),
            finished@.len() == all.len(),
            kept@ == unfinished(all.take(index as int), finished@.take(index as int)),
    {
        assert(index < finished.len());
        assert(all.take(index + 1).drop_last() =~= all.take(index as int));
        assert(finished@.take(index + 1).drop_last() =~= finished@.take(index as int));
        if !finished[index] {
            kept.push(task);
        }
        index += 1;
    }
    assert(all.take(all.len() as int) =~= all);
    assert(finished@.take(all.len() as int) =~= finished@);
    kept
}

impl Supervisor {
    /// Whether what the supervisor registers comes back to it.
    pub open spec fn connected(self) -> bool {
        feeds_registry(self.async_handle_tx, self.async_handle_rx)
    }

    /// The tasks registered again, oldest first.
    pub open spec fn requeued(self) -> Seq<JoinHandle<()>> {
        registered(self.async_handle_tx)
    }

    /// Answers what woke the supervisor.
    pub fn on_interrupt(&mut self, interrupt_kind: InterruptKind) -> (step: SupervisorStep)
        ensures
            interrupted(*old(self), interrupt_kind, *final(self), step),
        opens_invariants cancels(passes_on(interrupt_kind))
    {
        match interrupt_kind {
            InterruptKind::Cancel(external) => {
                if external {
                    cancel(&mut self.stop_token);
                }
                close_registry(&mut self.async_handle_rx);
                SupervisorStep::Drain
            },
            InterruptKind::Timeout => SupervisorStep::Sweep,
        }
    }

    /// Looks at each of `tasks`, and registers those again that still run. All are taken as long as
    /// the registry is open, and none once it is closed. The first one that is not taken comes
    /// back.
    pub fn requeue_unfinished(&mut self, tasks: Vec<JoinHandle<()>>) -> (r: Result<
        (),
        JoinHandle<()>,
    >)
        ensures
            final(self).stop_token == old(self).stop_token,
            final(self).async_handle_rx == old(self).async_handle_rx,
            same_registry(final(self).async_handle_tx, old(self).async_handle_tx),
            swept(old(self).requeued(), tasks@, final(self).requeued(), r),
            old(self).connected() && !registry_closed(old(self).async_handle_rx) ==> r is Ok,
            old(self).connected() && registry_closed(old(self).async_handle_rx)
                ==> final(self).requeued() == old(self).requeued(),
    {
        let mut looked: Vec<JoinHandle<()>> = Vec::new();
        let mut answers: Vec<bool> = Vec::new();
        let ghost all = tasks@;
        for task in it: tasks
            invariant
                it.seq() == all,
                looked@.len() == it.index(),
                answers@.len() == it.index(),
                forall|i: int|
                    0 <= i < it.index() ==> #[trigger] looked_at(all[i], answers@[i], looked@[i]),
        {
            let mut task = task;
            answers.push(is_finished(&mut task));
            looked.push(task);
        }
        let ghost looked_tasks = looked@;
        assert(seen(all, looked_tasks, answers@));

        let running = keep_unfinished(looked, &answers);
        let ghost kept = running@;
        assert(kept.take(0) =~= Seq::empty());
        assert(old(self).requeued() + kept.take(0) =~= old(self).requeued());
        for task in it: running
            invariant
                it.seq() == kept,
                kept == unfinished(looked_tasks, answers@),
                all == tasks@,
                seen(all, looked_tasks, answers@),
                self.stop_token == old(self).stop_token,
                self.async_handle_rx == old(self).async_handle_rx,
                same_registry(self.async_handle_tx, old(self).async_handle_tx),
                self.requeued() == old(self).requeued() + kept.take(it.index() as int),
                old(self).connected() && registry_closed(old(self).async_handle_rx) ==> it.index()
                    == 0,
        {
            let ghost n = it.index() as int;
            assert(self.connected() == old(self).connected());
            if let Err(returned) = send_task_to(
                &mut self.async_handle_tx,
                task,
                &self.async_handle_rx,
            ) {
                assert(returned == kept[n]);
                assert(self.requeued() == old(self).requeued() + kept.take(n));
                assert(swept_by(
                    old(self).requeued(),
                    all,
                    looked_tasks,
                    answers@,
                    self.requeued(),
                    Err(returned),
                ));
                return Err(returned);
            }
            assert(kept.take(n + 1) =~= kept.take(n).push(kept[n]));
            assert(self.requeued() =~= old(self).requeued() + kept.take(n + 1));
        }
        assert(kept.take(kept.len() as int) =~= kept);
        assert(swept_by(
            old(self).requeued(),
            all,
            looked_tasks,
            answers@,
            self.requeued(),
            Ok(()),
        ));
        Ok(())
    }
}

/// Connects a handle with the supervisor of its tasks.
pub fn start() -> (r: (Handle, Supervisor))
    ensures
        !r.0.stopping(),
        !r.0.asked(),
        r.0.launched() == Seq::<JoinHandle<()>>::empty(),
        !stop_requested(r.1.stop_token),
        !asked(r.1.stop_token),
        r.1.requeued() == Seq::<JoinHandle<()>>::empty(),
        !registry_closed(r.1.async_handle_rx),
        same_signal(r.0.stop_token, r.1.stop_token),
        same_signal(r.1.stop_token, r.0.stop_token),
        feeds_registry(r.0.async_handle_tx, r.1.async_handle_rx),
        r.1.connected(),
{
    let (handle_tx, async_handle_rx) = registry_channel();
    let (stop_token, supervisor_token) = signal_pair();
    let supervisor = Supervisor {
        stop_token: supervisor_token,
        async_handle_tx: clone_registry_sender(&handle_tx),
        async_handle_rx,
    };
    (Handle { stop_token, async_handle_tx: handle_tx }, supervisor)
}

/// A launch stops nothing: the handle has the signal that it had, and no less and no more is known
/// of a stop. What it is not refused is registered, once and last, and its handle waits for the
/// result.
pub proof fn law_launch_stops_nothing<T>(
    before: Handle,
    spawned: JoinHandle<()>,
    receiver: ResultReceiver<T>,
    after: Handle,
    r: Result<TaskHandle<T>, JoinHandle<()>>,
)
    requires
        launched_by(before, spawned, receiver, after, r),
    ensures
        after.stop_token == before.stop_token,
        after.stopping() == before.stopping(),
        after.asked() == before.asked(),
        r matches Ok(handle) ==> {
            &&& after.launched().len() == before.launched().len() + 1
            &&& after.launched().last() == spawned
            &&& after.launched().drop_last() == before.launched()
            &&& handle.task().outcome is None
            &&& receiver.gives() matches Some(result) ==> handle.task().result
                == Ok::<T, TaskPanicked>(result)
            &&& receiver.gives() is None ==> handle.task().result is Err
        },
        r matches Err(returned) ==> returned == spawned && after.launched() == before.launched(),
{
    if r is Ok {
        assert(after.launched().drop_last() =~= before.launched());
    }
}

/// A launch is refused only by a closed registry.
pub proof fn law_open_registry_takes_every_task<T>(
    before: Handle,
    spawned: JoinHandle<()>,
    receiver: ResultReceiver<T>,
    after: Handle,
    r: Result<TaskHandle<T>, JoinHandle<()>>,
)
    requires
        launched_by(before, spawned, receiver, after, r),
        forall|rx: UnboundedReceiver<JoinHandle<()>>| #[trigger]
            feeds_registry(before.async_handle_tx, rx) ==> !registry_closed(rx),
    ensures
        r is Ok,
        after.launched().contains(spawned),
{
    if r is Ok {
        assert(after.launched()[before.launched().len() as int] == spawned);
    }
}

/// What wakes the supervisor cancels its signal only if it is a stop from outside. Otherwise
/// nothing is opened that may cancel a signal, and as much is known of a stop as before.
pub proof fn law_only_an_outside_stop_cancels(
    before: Supervisor,
    interrupt_kind: InterruptKind,
    after: Supervisor,
    step: SupervisorStep,
)
    requires
        interrupted(before, interrupt_kind, after, step),
    ensures
        interrupt_kind matches InterruptKind::Cancel(true) ==> stop_requested(after.stop_token)
            && asked(after.stop_token) && step is Drain,
        interrupt_kind != InterruptKind::Cancel(true) ==> after.stop_token == before.stop_token
            && cancels(passes_on(interrupt_kind)) == Set::<int>::empty(),
        interrupt_kind is Timeout ==> step is Sweep && after == before,
        interrupt_kind is Cancel ==> step is Drain && registry_closed(after.async_handle_rx),
{
}

/// A stop is for good: however a handle is used, one that was asked to stop stays so.
pub proof fn law_stop_is_for_good(handles: Seq<Handle>, i: int, j: int)
    requires
        0 <= i <= j < handles.len(),
        forall|n: int| 0 < n < handles.len() ==> used(handles[n - 1], #[trigger] handles[n]),
        handles[i].stopping(),
    ensures
        handles[j].stopping(),
        keeps_signal(handles[j].stop_token, handles[i].stop_token),
    decreases j,
{
    if i < j {
        law_stop_is_for_good(handles, i, j - 1);
        assert(used(handles[j - 1], handles[j]));
    }
}

/// A stop reaches every clone: whatever use the two were put to, a clone that is compared with a
/// handle that was asked to stop is found to be stopped with it.
pub proof fn law_stop_reaches_clones(
    handle: Handle,
    cloned: Handle,
    stopped: Handle,
    meanwhile: Handle,
    after: Handle,
    r: bool,
)
    requires
        same_signal(cloned.stop_token, handle.stop_token),
        used(handle, stopped),
        stopped.stopping(),
        used(cloned, meanwhile),
        compared(meanwhile, stopped, after, r),
    ensures
        r,
        after.stopping(),
{
    assert(same_signal(meanwhile.stop_token, handle.stop_token));
    assert(same_signal(meanwhile.stop_token, stopped.stop_token));
}

/// A sweep keeps every task that still runs and no other.
pub proof fn law_sweep_keeps_running_tasks<T>(tasks: Seq<T>, finished: Seq<bool>)
    requires
        finished.len() == tasks.len(),
    ensures
        forall|i: int|
            0 <= i < tasks.len() && !finished[i] ==> unfinished(tasks, finished).contains(
                #[trigger] tasks[i],
            ),
        forall|k: int|
            0 <= k < unfinished(tasks, finished).len() ==> exists|i: int|
                0 <= i < tasks.len() && !finished[i] && tasks[i] == #[trigger] unfinished(
                    tasks,
                    finished,
                )[k],
        unfinished(tasks, finished).len() + finished.filter(|ended: bool| ended).len()
            == tasks.len(),
    decreases tasks.len(),
{
    reveal(Seq::filter);
    if tasks.len() > 0 {
        let before = tasks.drop_last();
        let ended = finished.drop_last();
        law_sweep_keeps_running_tasks(before, ended);
        let rest = unfinished(before, ended);
        let kept = unfinished(tasks, finished);
        assert forall|i: int| 0 <= i < tasks.len() && !finished[i] implies kept.contains(
            #[trigger] tasks[i],
        ) by {
            if i < before.len() {
                assert(rest.contains(before[i]));
                let k = choose|k: int| 0 <= k < rest.len() && rest[k] == before[i];
                assert(kept[k] == tasks[i]);
            } else {
                assert(kept[kept.len() - 1] == tasks[i]);
            }
        }
        assert forall|k: int| 0 <= k < kept.len() implies exists|i: int|
            0 <= i < tasks.len() && !finished[i] && tasks[i] == #[trigger] kept[k] by {
            if k < rest.len() {
                let i = choose|i: int|
                    0 <= i < before.len() && !ended[i] && before[i] == #[trigger] rest[k];
                assert(tasks[i] == kept[k] && !finished[i]);
            } else {
                assert(tasks[tasks.len() - 1] == kept[k]);
            }
        }
    }
}

/// A sweep keeps the order of the tasks: what it keeps of two runs of tasks is what it keeps of the
/// one, followed by what it keeps of the other. Of a single task it keeps that task, if it runs.
pub proof fn law_sweep_keeps_the_order<T>(
    tasks: Seq<T>,
    finished: Seq<bool>,
    more: Seq<T>,
    more_finished: Seq<bool>,
    task: T,
)
    requires
        finished.len() == tasks.len(),
        more_finished.len() == more.len(),
    ensures
        unfinished(tasks + more, finished + more_finished) == unfinished(tasks, finished)
            + unfinished(more, more_finished),
        unfinished(seq![task], seq![false]) == seq![task],
        unfinished(seq![task], seq![true]) == Seq::<T>::empty(),
        unfinished(Seq::<T>::empty(), Seq::<bool>::empty()) == Seq::<T>::empty(),
    decreases more.len(),
{
    reveal_with_fuel(unfinished, 2);
    assert(seq![task].drop_last() =~= Seq::<T>::empty());
    assert(unfinished(seq![task], seq![false]) =~= seq![task]);
    if more.len() == 0 {
        assert(tasks + more =~= tasks);
        assert(finished + more_finished =~= finished);
        assert(unfinished(tasks, finished) + unfinished(more, more_finished) =~= unfinished(
            tasks,
            finished,
        ));
    } else {
        let rest = more.drop_last();
        let rest_finished = more_finished.drop_last();
        law_sweep_keeps_the_order(tasks, finished, rest, rest_finished, task);
        assert((tasks + more).drop_last() =~= tasks + rest);
        assert((finished + more_finished).drop_last() =~= finished + rest_finished);
        assert((tasks + more).last() == more.last());
        assert((finished + more_finished).last() == more_finished.last());
        assert(unfinished(tasks + more, finished + more_finished) =~= unfinished(tasks, finished)
            + unfinished(more, more_finished));
    }
}

/// A task survives a sweep unless the look at it found that it had ended, and what was registered
/// before stays.
pub proof fn law_task_survives_sweep(
    before: Seq<JoinHandle<()>>,
    tasks: Seq<JoinHandle<()>>,
    looked: Seq<JoinHandle<()>>,
    answers: Seq<bool>,
    after: Seq<JoinHandle<()>>,
)
    requires
        swept_by(before, tasks, looked, answers, after, Ok(())),
    ensures
        before.is_prefix_of(after),
        forall|i: int|
            0 <= i < tasks.len() && !answers[i] ==> after.contains(#[trigger] looked[i])
                && same_task(looked[i], tasks[i]),
        forall|k: int|
            before.len() <= k < after.len() ==> exists|i: int|
                0 <= i < tasks.len() && !answers[i] && looked[i] == #[trigger] after[k],
{
    let running = unfinished(looked, answers);
    law_sweep_keeps_running_tasks(looked, answers);
    assert forall|i: int| 0 <= i < tasks.len() && !answers[i] implies after.contains(
        #[trigger] looked[i],
    ) && same_task(looked[i], tasks[i]) by {
        assert(running.contains(looked[i]));
        let k = choose|k: int| 0 <= k < running.len() && running[k] == looked[i];
        assert(after[before.len() + k] == looked[i]);
        assert(looked_at(tasks[i], answers[i], looked[i]));
    }
    assert forall|k: int| before.len() <= k < after.len() implies exists|i: int|
        0 <= i < tasks.len() && !answers[i] && looked[i] == #[trigger] after[k] by {
        assert(after[k] == running[k - before.len()]);
    }
}

/// What changes the registry.
pub enum RegistryEvent {
    /// A task was launched.
    Launched(JoinHandle<()>),
    /// The oldest tasks were taken and looked at, which left them like this and gave these answers.
    /// Those not seen to have ended were registered again.
    Swept(Seq<JoinHandle<()>>, Seq<bool>),
    /// The oldest task was taken and waited for.
    Awaited,
}

/// The tasks in the registry after `events`, oldest first.
pub open spec fn held(events: Seq<RegistryEvent>) -> Seq<JoinHandle<()>>
    decreases events.len(),
{
    if events.len() == 0 {
        Seq::empty()
    } else {
        let before = held(events.drop_last());
        match events.last() {
            RegistryEvent::Launched(task) => before.push(task),
            RegistryEvent::Swept(looked, answers) => before.skip(answers.len() as int) + unfinished(
                looked,
                answers,
            ),
            RegistryEvent::Awaited => before.skip(1),
        }
    }
}

/// Whether what `events` take from the registry is there.
pub open spec fn sound(events: Seq<RegistryEvent>) -> bool
    decreases events.len(),
{
    events.len() == 0 || {
        let before = held(events.drop_last());
        &&& sound(events.drop_last())
        &&& match events.last() {
            RegistryEvent::Launched(_) => true,
            RegistryEvent::Swept(looked, answers) => answers.len() <= before.len() && seen(
                before.take(answers.len() as int),
                looked,
                answers,
            ),
            RegistryEvent::Awaited => before.len() > 0,
        }
    }
}

/// Whether `handle` is one on `task`.
pub open spec fn is_on(handle: JoinHandle<()>, task: JoinHandle<()>) -> bool {
    handle == task || same_task(handle, task)
}

/// Whether `task` is among `tasks`.
pub open spec fn is_among(tasks: Seq<JoinHandle<()>>, task: JoinHandle<()>) -> bool {
    exists|i: int| 0 <= i < tasks.len() && is_on(#[trigger] tasks[i], task)
}

/// Whether, in `events`, a look found that `task` had ended, or it was waited for.
pub open spec fn settled(events: Seq<RegistryEvent>, task: JoinHandle<()>) -> bool
    decreases events.len(),
{
    events.len() > 0 && {
        ||| settled(events.drop_last(), task)
        ||| match events.last() {
            RegistryEvent::Launched(_) => false,
            RegistryEvent::Swept(looked, answers) => exists|i: int|
                0 <= i < answers.len() && answers[i] && is_on(#[trigger] looked[i], task),
            RegistryEvent::Awaited => is_on(held(events.drop_last())[0], task),
        }
    }
}

/// No launched task is lost: it is in the registry until a look has found that it had ended, or it
/// was waited for.
pub proof fn law_no_launched_task_is_lost(events: Seq<RegistryEvent>, task: JoinHandle<()>)
    requires
        sound(events),
        events.contains(RegistryEvent::Launched(task)),
    ensures
        is_among(held(events), task) || settled(events, task),
    decreases events.len(),
{
    let earlier = events.drop_last();
    let before = held(earlier);
    let after = held(events);
    let at = choose|at: int| 0 <= at < events.len() && events[at] == RegistryEvent::Launched(task);
    if at == events.len() - 1 {
        assert(is_on(after[before.len() as int], task));
    } else {
        assert(earlier[at] == RegistryEvent::Launched(task));
        law_no_launched_task_is_lost(earlier, task);
        if !settled(earlier, task) {
            let i = choose|i: int| 0 <= i < before.len() && is_on(#[trigger] before[i], task);
            match events.last() {
                RegistryEvent::Launched(_) => {
                    assert(is_on(after[i], task));
                },
                RegistryEvent::Swept(looked, answers) => {
                    let n = answers.len() as int;
                    if i < n {
                        let running = unfinished(looked, answers);
                        assert(looked_at(before.take(n)[i], answers[i], looked[i]));
                        assert(is_on(looked[i], task));
                        if !answers[i] {
                            law_sweep_keeps_running_tasks(looked, answers);
                            assert(running.contains(looked[i]));
                            let k = choose|k: int|
                                0 <= k < running.len() && running[k] == looked[i];
                            assert(is_on(after[before.len() - n + k], task));
                        }
                    } else {
                        assert(is_on(after[i - n], task));
                    }
                },
                RegistryEvent::Awaited => {
                    if i > 0 {
                        assert(is_on(after[i - 1], task));
                    }
                },
            }
        }
    }
}

/// Once the registry is drained, no launched task is left over: a look has found that it had ended,
/// or it was waited for.
pub proof fn law_drained_registry_leaves_no_task(
    events: Seq<RegistryEvent>,
    task: JoinHandle<()>,
)
    requires
        sound(events),
        held(events).len() == 0,
        events.contains(RegistryEvent::Launched(task)),
    ensures
        settled(events, task),
{
    law_no_launched_task_is_lost(events, task);
}

/// Whether the supervisor may be left as `resting` and wake up as `woken`: it has the same stop
/// signal, and a stop may have been asked for meanwhile.
pub open spec fn awoken(resting: Supervisor, woken: Supervisor) -> bool {
    &&& keeps_signal(woken.stop_token, resting.stop_token)
    &&& stop_requested(resting.stop_token) ==> stop_requested(woken.stop_token)
}

/// Whether the supervisor goes through its loop from `started` to the last of `after`, woken by
/// `kinds`: it sweeps until it is told to drain. Without a signal from outside, a cancellation
/// wakes it only where a stop was asked for.
pub open spec fn supervised(
    started: Supervisor,
    before: Seq<Supervisor>,
    kinds: Seq<InterruptKind>,
    after: Seq<Supervisor>,
    steps: Seq<SupervisorStep>,
) -> bool {
    &&& kinds.len() > 0
    &&& before.len() == kinds.len()
    &&& after.len() == kinds.len()
    &&& steps.len() == kinds.len()
    &&& forall|i: int|
        0 <= i < kinds.len() ==> #[trigger] interrupted(before[i], kinds[i], after[i], steps[i])
    &&& forall|i: int|
        0 <= i < kinds.len() && #[trigger] kinds[i] == InterruptKind::Cancel(false)
            ==> stop_requested(before[i].stop_token)
    &&& awoken(started, before[0])
    &&& forall|i: int|
        0 < i < kinds.len() ==> steps[i - 1] is Sweep && awoken(
            after[i - 1],
            #[trigger] before[i],
        )
    &&& steps.last() is Drain
}

/// While the supervisor sweeps, it keeps its stop signal.
proof fn lemma_sweeps_keep_the_signal(
    started: Supervisor,
    before: Seq<Supervisor>,
    kinds: Seq<InterruptKind>,
    after: Seq<Supervisor>,
    steps: Seq<SupervisorStep>,
    i: int,
)
    requires
        supervised(started, before, kinds, after, steps),
        0 <= i < kinds.len(),
    ensures
        keeps_signal(before[i].stop_token, started.stop_token),
    decreases i,
{
    if i > 0 {
        lemma_sweeps_keep_the_signal(started, before, kinds, after, steps, i - 1);
        assert(interrupted(before[i - 1], kinds[i - 1], after[i - 1], steps[i - 1]));
        assert(awoken(after[i - 1], before[i]));
    }
}

/// The supervisor ends only on a cancellation, the first that comes, and then the stop has been
/// asked for: by the signal that it had all along, and no further task is taken.
pub proof fn law_supervision_ends_with_a_stop(
    started: Supervisor,
    before: Seq<Supervisor>,
    kinds: Seq<InterruptKind>,
    after: Seq<Supervisor>,
    steps: Seq<SupervisorStep>,
)
    requires
        supervised(started, before, kinds, after, steps),
    ensures
        kinds.last() is Cancel,
        forall|i: int| 0 <= i < kinds.len() - 1 ==> #[trigger] kinds[i] is Timeout,
        stop_requested(after.last().stop_token),
        keeps_signal(after.last().stop_token, started.stop_token),
        registry_closed(after.last().async_handle_rx),
{
    let last = kinds.len() - 1;
    assert(interrupted(before[last], kinds[last], after[last], steps[last]));
    assert forall|i: int| 0 <= i < last implies #[trigger] kinds[i] is Timeout by {
        assert(interrupted(before[i], kinds[i], after[i], steps[i]));
        assert(awoken(after[i], before[i + 1]));
    }
    lemma_sweeps_keep_the_signal(started, before, kinds, after, steps, last);
}

/// When the supervisor has ended, every handle that was stopped together with it at first is
/// stopped: compared with a handle that has the supervisor's signal, it is found to be.
pub proof fn law_handles_are_stopped_after_supervision(
    started: Supervisor,
    before: Seq<Supervisor>,
    kinds: Seq<InterruptKind>,
    after: Seq<Supervisor>,
    steps: Seq<SupervisorStep>,
    handle: Handle,
    other: Handle,
    compared_handle: Handle,
    r: bool,
)
    requires
        supervised(started, before, kinds, after, steps),
        same_signal(handle.stop_token, started.stop_token),
        other.stop_token == after.last().stop_token,
        compared(handle, other, compared_handle, r),
    ensures
        r,
        compared_handle.stopping(),
{
    law_supervision_ends_with_a_stop(started, before, kinds, after, steps);
    assert(same_signal(handle.stop_token, after.last().stop_token));
}

/// The status of a task foretells what a wait for it gives: a complete one its result, one in
/// error the panic.
pub proof fn law_status_foretells_join<T>(
    before: TaskView<T>,
    status: TaskStatus,
    after: TaskView<T>,
)
    requires
        looked(before, status, after),
    ensures
        !(status is Pending) ==> after.outcome == Some(after.result),
        status is Pending ==> after.outcome is None && before.outcome is None,
        status is Complete ==> after.result is Ok,
        status is Error ==> after.result is Err,
{
}

/// A wait gives what the task sends: its result, or, if it sends none, the panic. What a handle has
/// received already it gives too.
pub proof fn law_wait_gives_what_was_sent<T>(
    handle: TaskHandle<T>,
    receiver: ResultReceiver<T>,
    result: T,
)
    ensures
        handle.state == TaskHandleState::Pending(receiver) && receiver.gives() == Some(result)
            ==> handle.task().result == Ok::<T, TaskPanicked>(result),
        handle.state == TaskHandleState::Pending(receiver) && receiver.gives() is None
            ==> handle.task().result is Err,
        handle.state == TaskHandleState::Pending(receiver) ==> handle.task().outcome is None,
        handle.state == TaskHandleState::Complete(result) ==> handle.task().result == Ok::<
            T,
            TaskPanicked,
        >(result) && handle.task().outcome == Some(Ok::<T, TaskPanicked>(result)),
        handle.state == TaskHandleState::<T>::Error ==> handle.task().result is Err
            && handle.task().outcome is Some,
{
}

/// A task that was seen to have ended is seen so ever after, with the same outcome.
pub proof fn law_ended_task_stays_ended<T>(
    before: TaskView<T>,
    first: TaskStatus,
    between: TaskView<T>,
    second: TaskStatus,
    after: TaskView<T>,
)
    requires
        looked(before, first, between),
        looked(between, second, after),
        !(first is Pending),
    ensures
        second == first,
        after == between,
{
}

/// Looking loses nothing: however often the status is asked for, a wait gives what it would have
/// given without.
pub proof fn law_looks_keep_the_result<T>(tasks: Seq<TaskView<T>>, statuses: Seq<TaskStatus>)
    requires
        tasks.len() == statuses.len() + 1,
        forall|i: int|
            0 <= i < statuses.len() ==> looked(tasks[i], #[trigger] statuses[i], tasks[i + 1]),
    ensures
        tasks.last().result == tasks[0].result,
    decreases statuses.len(),
{
    if statuses.len() > 0 {
        let earlier = statuses.drop_last();
        assert forall|i: int| 0 <= i < earlier.len() implies looked(
            tasks.drop_last()[i],
            #[trigger] earlier[i],
            tasks.drop_last()[i + 1],
        ) by {
            assert(statuses[i] == earlier[i]);
        }
        law_looks_keep_the_result(tasks.drop_last(), earlier);
        assert(looked(
            tasks[statuses.len() - 1],
            statuses[statuses.len() - 1],
            tasks[statuses.len() as int],
        ));
    }
}

}
