use cubic::common::primitive::NativeSend;
use cubic::common::runtime::{
    joined, keep_unfinished, start, Handle, HandleInterface, InterruptKind, Supervisor,
    SupervisorStep, TaskHandle, TaskHandleInterface, TaskHandleState, TaskPanicked, TaskStatus,
};
use cubic::task_result::{result_channel, Polled};
use tokio::runtime::{Builder, Runtime};

fn executor() -> Runtime {
    Builder::new_current_thread().build().unwrap()
}

fn sendable<T: NativeSend>(value: T) -> T {
    value
}

#[test]
fn whatever_can_be_sent_is_native_send() {
    assert_eq!(sendable(String::from("task")), "task");
}

#[test]
fn a_pending_task_becomes_complete() {
    let (tx, rx) = result_channel::<u32>();
    let mut task = TaskHandle::new(rx);
    assert_eq!(task.status(), TaskStatus::Pending);
    assert_eq!(task.status(), TaskStatus::Pending);
    tx.send(17).unwrap();
    assert_eq!(task.status(), TaskStatus::Complete);
    assert_eq!(task.status(), TaskStatus::Complete);
    assert_eq!(task.join(), Ok(17));
}

#[test]
fn a_task_without_a_result_is_in_error() {
    let (tx, rx) = result_channel::<u32>();
    let mut task = TaskHandle::new(rx);
    drop(tx);
    assert_eq!(task.status(), TaskStatus::Error);
    assert_eq!(task.status(), TaskStatus::Error);
    assert_eq!(task.join(), Err(TaskPanicked));
}

#[test]
fn join_waits_for_a_pending_task() {
    let (tx, rx) = result_channel::<String>();
    let task = TaskHandle::new(rx);
    let elsewhere = Builder::new_multi_thread().worker_threads(1).build().unwrap();
    elsewhere.spawn(async move { tx.send(String::from("late")) });
    assert_eq!(task.join(), Ok(String::from("late")));
}

#[test]
fn join_of_a_lost_task_fails() {
    let (tx, rx) = result_channel::<u32>();
    drop(tx);
    assert_eq!(TaskHandle::new(rx).join(), Err(TaskPanicked));
}

#[test]
fn a_look_decides_the_state() {
    let state = TaskHandleState::after_poll(Polled::Received(3));
    assert!(matches!(state, TaskHandleState::Complete(3)));
    assert_eq!(state.status(), TaskStatus::Complete);
    let (_tx, rx) = result_channel::<u32>();
    let state = TaskHandleState::after_poll(Polled::Empty(rx));
    assert_eq!(state.status(), TaskStatus::Pending);
    let state = TaskHandleState::<u32>::after_poll(Polled::Closed);
    assert_eq!(state.status(), TaskStatus::Error);
    assert_eq!(joined(Ok(5)), Ok(5));
}

#[test]
fn looking_loses_nothing() {
    let (tx, rx) = result_channel::<u32>();
    let mut task = TaskHandle::new(rx);
    for _ in 0..4 {
        assert_eq!(task.status(), TaskStatus::Pending);
    }
    tx.send(23).unwrap();
    assert_eq!(task.join(), Ok(23));

    let (tx, rx) = result_channel::<u32>();
    let mut task = TaskHandle::new(rx);
    assert_eq!(task.status(), TaskStatus::Pending);
    drop(tx);
    assert_eq!(task.join(), Err(TaskPanicked));
}

#[test]
fn only_clones_are_stopped_together() {
    let (mut handle, _supervisor) = start();
    let (mut stranger, _other_supervisor) = start();
    let mut other = handle.clone();
    let mut third = other.clone();
    assert!(other.stops_with(&handle));
    assert!(third.stops_with(&handle));
    assert!(!stranger.stops_with(&handle));
    handle.stop();
    assert!(other.stops_with(&handle));
    assert!(other.should_stop());
    assert!(third.should_stop());
    assert!(!stranger.stops_with(&handle));
    assert!(!stranger.should_stop());
}

#[test]
fn a_stop_is_seen_by_every_handle() {
    let (mut handle, _supervisor) = start();
    let mut other = handle.clone();
    assert!(!handle.should_stop());
    assert!(!other.should_stop());
    handle.stop();
    assert!(handle.should_stop());
    assert!(other.should_stop());
    assert!(other.should_stop());
    assert!(handle.clone().should_stop());
    handle.stop();
    assert!(handle.should_stop());
}

#[test]
fn a_signal_stops_the_handles_and_closes_the_registry() {
    let executor = executor();
    let (mut handle, mut supervisor) = start();
    let step = supervisor.on_interrupt(InterruptKind::Cancel(true));
    assert_eq!(step, SupervisorStep::Drain);
    assert!(handle.should_stop());
    let (_tx, rx) = result_channel::<u32>();
    assert!(handle.launch_task_async(executor.spawn(async {}), rx).is_err());
}

#[test]
fn an_inner_stop_closes_the_registry_and_cancels_nothing() {
    let (mut handle, mut supervisor) = start();
    let step = supervisor.on_interrupt(InterruptKind::Cancel(false));
    assert_eq!(step, SupervisorStep::Drain);
    assert!(!handle.should_stop());
    assert!(supervisor.async_handle_rx.is_closed());
}

#[test]
fn a_timeout_only_sweeps() {
    let (mut handle, mut supervisor) = start();
    let step = supervisor.on_interrupt(InterruptKind::Timeout);
    assert_eq!(step, SupervisorStep::Sweep);
    assert!(!handle.should_stop());
    assert!(!supervisor.async_handle_rx.is_closed());
}

/// Launches a future through `handle`.
fn launch(executor: &Runtime, handle: &mut Handle, value: u32, ends: bool) -> TaskHandle<u32> {
    let (tx, rx) = result_channel::<u32>();
    let spawned = executor.spawn(async move {
        if !ends {
            std::future::pending::<()>().await;
        }
        tx.send(value).ok();
    });
    match handle.launch_task_async(spawned, rx) {
        Ok(task) => task,
        Err(_) => panic!("the registry is closed"),
    }
}

fn registered(supervisor: &Supervisor) -> usize {
    supervisor.async_handle_rx.len()
}

#[test]
fn a_sweep_registers_running_tasks_again() {
    let executor = executor();
    let (mut handle, mut supervisor) = start();
    let mut first = launch(&executor, &mut handle, 1, true);
    let mut second = launch(&executor, &mut handle, 2, false);
    let mut third = launch(&executor, &mut handle, 3, false);
    assert_eq!(registered(&supervisor), 3);
    executor.block_on(async {
        for _ in 0..5 {
            tokio::task::yield_now().await;
        }
    });
    assert_eq!(first.status(), TaskStatus::Complete);
    assert_eq!(second.status(), TaskStatus::Pending);

    let mut tasks = Vec::new();
    while let Ok(task) = supervisor.async_handle_rx.try_recv() {
        tasks.push(task);
    }
    let running: Vec<_> = tasks.iter().skip(1).map(|task| task.id()).collect();
    assert!(supervisor.requeue_unfinished(tasks).is_ok());

    let mut kept = Vec::new();
    while let Ok(task) = supervisor.async_handle_rx.try_recv() {
        kept.push(task.id());
    }
    assert_eq!(kept, running);
    assert_eq!(first.join(), Ok(1));

    drop(executor);
    assert_eq!(second.status(), TaskStatus::Error);
    assert_eq!(third.status(), TaskStatus::Error);
}

#[test]
fn no_running_task_is_lost_over_many_sweeps() {
    let executor = executor();
    let (mut handle, mut supervisor) = start();
    let kept = launch(&executor, &mut handle, 1, false);
    for round in 0..3 {
        let _ended = launch(&executor, &mut handle, round, true);
        executor.block_on(async {
            for _ in 0..5 {
                tokio::task::yield_now().await;
            }
        });
        assert_eq!(supervisor.on_interrupt(InterruptKind::Timeout), SupervisorStep::Sweep);
        let mut tasks = Vec::new();
        while let Ok(task) = supervisor.async_handle_rx.try_recv() {
            tasks.push(task);
        }
        assert_eq!(tasks.len(), 2);
        assert!(supervisor.requeue_unfinished(tasks).is_ok());
        assert_eq!(registered(&supervisor), 1);
    }
    drop(executor);
    assert_eq!(kept.join(), Err(TaskPanicked));
}

#[test]
fn a_drained_registry_leaves_no_task_pending() {
    let executor = executor();
    let (mut handle, mut supervisor) = start();
    let mut first = launch(&executor, &mut handle, 1, true);
    let (tx, rx) = result_channel::<u32>();
    let spawned = executor.spawn(async move {
        let _tx = tx;
        panic!("no result");
    });
    let mut second = match handle.launch_task_async(spawned, rx) {
        Ok(task) => task,
        Err(_) => panic!("the registry is closed"),
    };
    assert_eq!(second.status(), TaskStatus::Pending);
    handle.stop();
    assert_eq!(supervisor.on_interrupt(InterruptKind::Cancel(false)), SupervisorStep::Drain);
    executor.block_on(async {
        while let Some(task) = supervisor.async_handle_rx.recv().await {
            task.await.ok();
        }
    });
    assert_eq!(first.status(), TaskStatus::Complete);
    assert_eq!(second.status(), TaskStatus::Error);
    assert_eq!(first.join(), Ok(1));
}

#[test]
fn supervision_ends_with_a_stop() {
    let (mut handle, mut supervisor) = start();
    assert_eq!(supervisor.on_interrupt(InterruptKind::Timeout), SupervisorStep::Sweep);
    assert_eq!(supervisor.on_interrupt(InterruptKind::Timeout), SupervisorStep::Sweep);
    handle.stop();
    assert_eq!(supervisor.on_interrupt(InterruptKind::Cancel(false)), SupervisorStep::Drain);
    assert!(supervisor.stop_token.is_cancelled());
    assert!(supervisor.async_handle_rx.is_closed());
}

#[test]
fn a_closed_registry_gives_the_first_running_task_back() {
    let executor = executor();
    let (_handle, mut supervisor) = start();
    let first = executor.spawn(std::future::pending::<()>());
    let second = executor.spawn(std::future::pending::<()>());
    let id = first.id();
    supervisor.on_interrupt(InterruptKind::Cancel(false));
    match supervisor.requeue_unfinished(vec![first, second]) {
        Ok(()) => panic!("the registry is open"),
        Err(task) => assert_eq!(task.id(), id),
    }
    assert!(supervisor.requeue_unfinished(vec![]).is_ok());
}

#[test]
fn unfinished_tasks_keep_their_order() {
    let kept = keep_unfinished(vec!['a', 'b', 'c', 'd'], &vec![false, true, false, true]);
    assert_eq!(kept, vec!['a', 'c']);
    assert_eq!(keep_unfinished(vec![1, 2], &vec![false, false]), vec![1, 2]);
    assert_eq!(keep_unfinished(vec![1, 2], &vec![true, true]), Vec::<i32>::new());
    assert_eq!(keep_unfinished(Vec::<i32>::new(), &vec![]), vec![]);
}
