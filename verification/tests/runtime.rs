use cubic::channel::MainSendError;
use cubic::runtime::{
    main_launch, main_step, report_complete, start, thread_launch, AsyncWorker, Handle, MainLoop,
    MainMessage, MainStep, WorkerAction, WorkerFault, WorkerMessage, WorkerStep,
};
use cubic::table::TaskTable;
use tokio::sync::mpsc::{channel, unbounded_channel};

/// A worker with its main loop, after `launches` were sent through the first handle.
fn launched(launches: &[WorkerMessage]) -> (AsyncWorker, MainLoop) {
    start(|mut handle: Handle| {
        for message in launches {
            match *message {
                WorkerMessage::LaunchTaskSync(task, true) => {
                    assert_eq!(handle.launch_task_sync(task), Ok(()))
                }
                WorkerMessage::LaunchTaskAsync(task) => {
                    assert_eq!(handle.launch_task_async(task), Ok(()))
                }
                _ => panic!("no handle sends this"),
            }
        }
    })
}

fn is_idle(step: Result<WorkerAction, WorkerFault>) -> bool {
    matches!(step, Ok(WorkerAction::Idle))
}

#[test]
fn one_main_task_runs_and_ends_the_runtime() {
    let (mut worker, mut main) = launched(&[WorkerMessage::LaunchTaskSync(41, true)]);

    let received = worker.worker_rx.try_recv().unwrap();
    assert_eq!(received, WorkerMessage::LaunchTaskSync(41, true));
    let step = worker.on_received(Some(received));
    assert!(matches!(step, Ok(WorkerStep::Continue(WorkerAction::Idle))));
    assert!(!worker.worker_rx.is_closed());

    assert_eq!(main.next_step(), MainStep::RunTask(41, 0));
    assert_eq!(main.task_finished(0), Ok(()));

    let received = worker.worker_rx.try_recv().unwrap();
    assert_eq!(received, WorkerMessage::TaskComplete(0));
    assert!(is_idle(worker.process_message(received)));
    assert!(worker.worker_rx.is_closed());

    let step = worker.on_received(None);
    let Ok(WorkerStep::Finish(last)) = step else {
        panic!("the worker goes on");
    };
    assert_eq!(last, MainMessage::Terminate);
    worker.main_tx.try_send(last).unwrap();
    assert_eq!(main.next_step(), MainStep::Return);
}

#[test]
fn a_new_handle_is_not_terminating() {
    let (_worker, _main) = start(|handle: Handle| assert!(!handle.is_terminating()));
}

#[test]
fn a_closed_worker_gives_messages_back() {
    let (worker_tx, mut worker_rx) = unbounded_channel();
    let mut handle = Handle { worker_tx, terminate_flag: true };
    assert!(handle.is_terminating());
    worker_rx.close();
    assert_eq!(handle.launch_task_sync(7), Err(WorkerMessage::LaunchTaskSync(7, true)));
    assert_eq!(handle.launch_task_async(8), Err(WorkerMessage::LaunchTaskAsync(8)));
    assert_eq!(report_complete(&mut handle.worker_tx, 9), Err(WorkerMessage::TaskComplete(9)));
}

#[test]
fn a_future_alone_closes_the_worker() {
    let (mut worker, _main) = launched(&[WorkerMessage::LaunchTaskAsync(5)]);
    let received = worker.worker_rx.try_recv().unwrap();
    let step = worker.process_message(received);
    assert!(matches!(step, Ok(WorkerAction::SpawnAsync(5))));
    assert!(worker.worker_rx.is_closed());
    assert_eq!(worker.next_task_id, 0);
}

#[test]
fn a_future_beside_an_active_task_keeps_the_worker_open() {
    let (mut worker, _main) = launched(&[]);
    assert!(is_idle(worker.process_message(WorkerMessage::LaunchTaskSync(1, true))));
    assert!(matches!(
        worker.process_message(WorkerMessage::LaunchTaskAsync(2)),
        Ok(WorkerAction::SpawnAsync(2))
    ));
    assert!(!worker.worker_rx.is_closed());
}

#[test]
fn a_task_off_the_main_thread_reports_over_its_own_sender() {
    let (mut worker, _main) = launched(&[]);
    let step = worker.process_message(WorkerMessage::LaunchTaskSync(6, false));
    let Ok(WorkerAction::SpawnThread(task, task_id, mut sender)) = step else {
        panic!("no thread is spawned");
    };
    assert_eq!((task, task_id), (6, 0));
    assert_eq!(report_complete(&mut sender, task_id), Ok(()));
    assert_eq!(worker.worker_rx.try_recv(), Ok(WorkerMessage::TaskComplete(0)));
}

#[test]
fn task_ids_are_given_out_in_order_and_not_reused() {
    let (mut worker, _main) = launched(&[]);
    for task in 0..3u64 {
        let step = worker.process_message(WorkerMessage::LaunchTaskSync(task, false));
        assert!(matches!(
            step,
            Ok(WorkerAction::SpawnThread(key, id, _)) if key == task && u64::from(id) == task
        ));
    }
    assert!(is_idle(worker.process_message(WorkerMessage::TaskComplete(1))));
    assert_eq!(
        worker.fault(&WorkerMessage::TaskComplete(1)),
        Some(WorkerFault::UnknownTask(1))
    );
    let step = worker.process_message(WorkerMessage::LaunchTaskSync(9, false));
    assert!(matches!(step, Ok(WorkerAction::SpawnThread(9, 3, _))));
    assert_eq!(worker.active_tasks.len(), 3);
    assert!(!worker.worker_rx.is_closed());
}

#[test]
fn completion_undoes_a_launch() {
    let (mut worker, _main) = launched(&[]);
    assert!(worker.process_message(WorkerMessage::LaunchTaskSync(1, false)).is_ok());
    let before = worker.active_tasks.clone();
    assert!(worker.process_message(WorkerMessage::LaunchTaskSync(2, false)).is_ok());
    assert_ne!(worker.active_tasks, before);
    assert!(is_idle(worker.process_message(WorkerMessage::TaskComplete(1))));
    assert_eq!(worker.active_tasks, before);
}

#[test]
fn faults_are_told_apart() {
    let (mut worker, _main) = launched(&[]);
    assert_eq!(worker.fault(&WorkerMessage::LaunchTaskSync(0, true)), None);
    assert_eq!(worker.fault(&WorkerMessage::LaunchTaskAsync(0)), None);
    assert_eq!(
        worker.fault(&WorkerMessage::TaskComplete(4)),
        Some(WorkerFault::UnknownTask(4))
    );

    worker.current_main_task_id = Some(3);
    assert_eq!(
        worker.fault(&WorkerMessage::LaunchTaskSync(0, true)),
        Some(WorkerFault::MainTaskRunning)
    );
    assert_eq!(worker.fault(&WorkerMessage::LaunchTaskSync(0, false)), None);

    worker.next_task_id = u32::MAX;
    assert_eq!(
        worker.fault(&WorkerMessage::LaunchTaskSync(0, false)),
        Some(WorkerFault::TaskIdsExhausted)
    );
}

#[test]
fn a_completed_main_task_frees_the_main_thread() {
    let (mut worker, _main) = launched(&[]);
    assert!(worker.process_message(WorkerMessage::LaunchTaskSync(1, false)).is_ok());
    assert!(worker.process_message(WorkerMessage::LaunchTaskSync(2, false)).is_ok());
    worker.current_main_task_id = Some(1);
    assert!(is_idle(worker.process_message(WorkerMessage::TaskComplete(0))));
    assert_eq!(worker.current_main_task_id, Some(1));
    assert!(!worker.worker_rx.is_closed());
    assert!(is_idle(worker.process_message(WorkerMessage::TaskComplete(1))));
    assert_eq!(worker.current_main_task_id, None);
    assert!(worker.worker_rx.is_closed());
}

#[test]
fn launches_do_not_mark_the_main_thread() {
    let (mut worker, mut main) = launched(&[]);
    assert!(is_idle(worker.process_message(WorkerMessage::LaunchTaskSync(1, true))));
    assert_eq!(worker.current_main_task_id, None);
    assert_eq!(main.next_step(), MainStep::RunTask(1, 0));
    assert!(is_idle(worker.process_message(WorkerMessage::LaunchTaskSync(2, true))));
    assert_eq!(main.next_step(), MainStep::RunTask(2, 1));
}

#[test]
fn the_main_thread_takes_one_message_at_a_time() {
    let (mut worker, _main) = launched(&[]);
    assert!(is_idle(worker.process_message(WorkerMessage::LaunchTaskSync(1, true))));
    let step = worker.process_message(WorkerMessage::LaunchTaskSync(2, true));
    assert!(matches!(step, Err(WorkerFault::MainChannelFull)));
}

#[test]
fn a_main_thread_that_is_gone_takes_nothing() {
    let (mut worker, main) = launched(&[]);
    drop(main.main_rx);
    let step = worker.process_message(WorkerMessage::LaunchTaskSync(1, true));
    assert!(matches!(step, Err(WorkerFault::MainChannelClosed)));
}

#[test]
fn without_senders_no_thread_is_launched() {
    let (worker_tx, worker_rx) = unbounded_channel();
    let worker_weak_tx = worker_tx.downgrade();
    let (main_tx, _main_rx) = channel(1);
    let mut worker = AsyncWorker::new(worker_rx, worker_weak_tx, main_tx);
    drop(worker_tx);
    let step = worker.process_message(WorkerMessage::LaunchTaskSync(1, false));
    assert!(matches!(step, Err(WorkerFault::WorkerChannelGone)));
}

#[test]
fn launches_follow_their_channels() {
    assert!(is_idle(main_launch(Ok(()))));
    assert!(matches!(
        main_launch(Err(MainSendError::Full)),
        Err(WorkerFault::MainChannelFull)
    ));
    assert!(matches!(
        main_launch(Err(MainSendError::Closed)),
        Err(WorkerFault::MainChannelClosed)
    ));
    let (sender, _receiver) = unbounded_channel();
    assert!(matches!(
        thread_launch(3, 4, Some(sender)),
        Ok(WorkerAction::SpawnThread(3, 4, _))
    ));
    assert!(matches!(thread_launch(3, 4, None), Err(WorkerFault::WorkerChannelGone)));
}

#[test]
fn the_main_thread_leaves_when_told_and_when_nothing_can_come() {
    assert_eq!(
        main_step(Some(MainMessage::RunTaskSync(10, 11))),
        MainStep::RunTask(10, 11)
    );
    assert_eq!(main_step(Some(MainMessage::Terminate)), MainStep::Return);
    assert_eq!(main_step(None), MainStep::Return);

    let (worker, mut main) = launched(&[]);
    drop(worker);
    assert_eq!(main.next_step(), MainStep::Return);
    assert_eq!(main.next_step(), MainStep::Return);
    assert_eq!(main.task_finished(2), Err(WorkerMessage::TaskComplete(2)));
}

#[test]
fn a_stored_task_is_taken_once() {
    let mut table = TaskTable::new();
    let first = table.store("first");
    let second = table.store("second");
    assert_eq!((first, second), (0, 1));
    assert_eq!(table.take(first), Some("first"));
    assert_eq!(table.take(first), None);
    assert_eq!(table.store("third"), 2);
    assert_eq!(table.take(second), Some("second"));
    assert_eq!(table.take(7), None);
}

#[test]
fn every_main_task_runs_once_and_in_order() {
    let keys = [7, 5, 9];
    let launches: Vec<_> =
        keys.iter().map(|key| WorkerMessage::LaunchTaskSync(*key, true)).collect();
    let (mut worker, mut main) = launched(&launches);
    assert_eq!(worker.main_tx.max_capacity(), 1);

    let mut ran = Vec::new();
    for launch in &launches {
        let received = worker.worker_rx.try_recv().unwrap();
        assert_eq!(received, *launch);
        assert!(matches!(worker.on_received(Some(received)), Ok(WorkerStep::Continue(_))));
        match main.next_step() {
            MainStep::RunTask(key, task_id) => ran.push((key, task_id)),
            MainStep::Return => panic!("a task is left"),
        }
    }
    assert_eq!(ran, vec![(7, 0), (5, 1), (9, 2)]);
    for (_, task_id) in &ran {
        assert_eq!(main.task_finished(*task_id), Ok(()));
        let received = worker.worker_rx.try_recv().unwrap();
        assert!(matches!(worker.on_received(Some(received)), Ok(WorkerStep::Continue(_))));
    }
    assert!(worker.worker_rx.is_closed());
    match worker.on_received(None) {
        Ok(WorkerStep::Finish(last)) => worker.main_tx.try_send(last).unwrap(),
        _ => panic!("a message was to come"),
    }
    assert_eq!(main.next_step(), MainStep::Return);
}

#[test]
fn the_main_thread_keeps_the_order_when_the_worker_is_gone() {
    let (mut worker, mut main) = launched(&[WorkerMessage::LaunchTaskSync(3, true)]);
    let received = worker.worker_rx.try_recv().unwrap();
    assert!(worker.on_received(Some(received)).is_ok());
    drop(worker);
    assert_eq!(main.next_step(), MainStep::RunTask(3, 0));
    assert_eq!(main.next_step(), MainStep::Return);
    assert_eq!(main.next_step(), MainStep::Return);
}
