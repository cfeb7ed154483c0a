use contain::abi::{EIO, O_CLOEXEC, O_CREAT, O_RDWR};
use contain::runner::{
    exit_code, exit_status, launch_start, launch_step, list_schemes, scheme_names, Launch, Order,
    Report, CONTAIN_EXEC_FAIL_EXIT,
};
use contain::supervisor::{
    socket_name, SetupStep, Worker, WorkerAction, WorkerEvent, WorkerState, SOCKET_FLAGS,
};
use contain::ContainError;

#[test]
fn scheme_names_are_the_words_of_the_listing() {
    assert_eq!(scheme_names("file\nnull\nrand\n"), vec!["file", "null", "rand"]);
    assert_eq!(scheme_names(""), Vec::<String>::new());
    assert_eq!(scheme_names(" \n\t\r\x0C"), Vec::<String>::new());
    assert_eq!(scheme_names("one"), vec!["one"]);
    assert_eq!(scheme_names("  a \t b\r\nc\x0Cd  "), vec!["a", "b", "c", "d"]);
    assert_eq!(scheme_names("a\u{a0}b \u{e9}t\u{e9}"), vec!["a\u{a0}b", "\u{e9}t\u{e9}"]);
    assert_eq!(scheme_names("a\x0Bb"), vec!["a\x0Bb"]);
}

#[test]
fn scheme_names_agree_with_the_standard_library() {
    for listing in ["", "file\nnull\n", " x  y\tz", "\n\n", "a\u{2003}b c", "tcp\r\nudp\r\n", "q"] {
        let expected: Vec<String> =
            listing.split_ascii_whitespace().map(|s| s.to_string()).collect();
        assert_eq!(scheme_names(listing), expected, "{:?}", listing);
    }
}

#[test]
fn list_schemes_reads_utf8() {
    let names = list_schemes(b"file\nrand\nthisproc\n").unwrap();
    assert_eq!(names, vec!["file", "rand", "thisproc"]);
    let names = list_schemes("sch\u{e9}ma pty".as_bytes()).unwrap();
    assert_eq!(names, vec!["sch\u{e9}ma", "pty"]);
    assert_eq!(list_schemes(b"").unwrap(), Vec::<String>::new());
}

#[test]
fn list_schemes_refuses_what_is_not_utf8() {
    for listing in [&b"file\n\xff\n"[..], &b"\xc3"[..], &b"ok \xed\xa0\x80"[..]] {
        match list_schemes(listing) {
            Err(ContainError::SyscallError(e)) => assert_eq!(e.errno, EIO),
            other => panic!("unexpected {:?}", other),
        }
    }
}

#[test]
fn exit_code_defaults_to_one() {
    assert_eq!(exit_code(Some(0)), 0);
    assert_eq!(exit_code(Some(42)), 42);
    assert_eq!(exit_code(Some(-1)), -1);
    assert_eq!(exit_code(None), 1);
}

#[test]
fn exit_status_holds_the_code_in_its_second_byte() {
    assert_eq!(exit_status(0), 0);
    assert_eq!(exit_status(1), 1 << 8);
    assert_eq!(exit_status(13), 13 << 8);
    assert_eq!(exit_status(CONTAIN_EXEC_FAIL_EXIT as u8), 3328);
    assert_eq!(exit_status(255), 255 << 8);
}

#[test]
fn the_child_enters_the_namespace_and_executes() {
    assert_eq!(launch_start(), Launch::Forking);
    let (state, order) = launch_step(9, Launch::Forking, Report::Forked(0));
    assert_eq!(state, Launch::Entering);
    assert!(matches!(order, Order::Enter { namespace: 9 }));
    let (state, order) = launch_step(9, state, Report::Entered(Ok(())));
    assert_eq!(state, Launch::Executing);
    assert!(matches!(order, Order::Exec));
    let (state, order) = launch_step(9, state, Report::ExecFailed);
    assert_eq!(state, Launch::Over);
    assert!(matches!(order, Order::Exit(13)));
}

#[test]
fn the_child_fails_if_it_cannot_enter() {
    let refused = syscall::Error::new(1);
    let (state, order) = launch_step(9, Launch::Entering, Report::Entered(Err(refused)));
    assert_eq!(state, Launch::Over);
    assert!(matches!(order, Order::Fail(ContainError::SyscallError(e)) if e == refused));
}

#[test]
fn the_parent_waits_and_collects() {
    let (state, order) = launch_step(9, Launch::Forking, Report::Forked(321));
    assert_eq!(state, Launch::Waiting);
    assert!(matches!(order, Order::Wait { child: 321 }));
    let (state, order) = launch_step(9, state, Report::Waited(Ok(13 << 8)));
    assert_eq!(state, Launch::Reaping { status: 13 << 8 });
    assert!(matches!(order, Order::Reap));
    let (state, order) = launch_step(9, state, Report::Reaped(Ok(400)));
    assert_eq!(state, Launch::Reaping { status: 13 << 8 });
    assert!(matches!(order, Order::Reap));
    let (state, order) = launch_step(9, state, Report::Reaped(Ok(0)));
    assert_eq!(state, Launch::Over);
    assert!(matches!(order, Order::Return(3328)));
}

#[test]
fn a_failure_to_collect_ends_the_collecting() {
    let lost = Report::Reaped(Err(syscall::Error::new(10)));
    let (state, order) = launch_step(9, Launch::Reaping { status: 256 }, lost);
    assert_eq!(state, Launch::Over);
    assert!(matches!(order, Order::Return(256)));
}

#[test]
fn a_failed_fork_and_a_failed_wait_are_reported() {
    let (state, order) = launch_step(9, Launch::Forking, Report::Forked(-1));
    assert_eq!(state, Launch::Over);
    assert!(matches!(order, Order::FailWithLastError));
    let lost = syscall::Error::new(10);
    let (state, order) = launch_step(9, Launch::Waiting, Report::Waited(Err(lost)));
    assert_eq!(state, Launch::Over);
    assert!(matches!(order, Order::Fail(ContainError::SyscallError(e)) if e == lost));
}

#[test]
fn a_report_out_of_turn_ends_the_launch() {
    let (state, order) = launch_step(9, Launch::Forking, Report::ExecFailed);
    assert_eq!(state, Launch::Over);
    assert!(matches!(order, Order::Fail(ContainError::ThreadError)));
    let (state, order) = launch_step(9, Launch::Over, Report::Forked(1));
    assert_eq!(state, Launch::Over);
    assert!(matches!(order, Order::Fail(ContainError::ThreadError)));
}

#[test]
fn sockets_are_named_by_a_colon_and_the_scheme() {
    assert_eq!(socket_name("file"), ":file");
    assert_eq!(socket_name(""), ":");
    assert_eq!(SOCKET_FLAGS, O_CREAT | O_RDWR | O_CLOEXEC);
    assert_eq!(
        SOCKET_FLAGS,
        syscall::flag::O_CREAT | syscall::flag::O_RDWR | syscall::flag::O_CLOEXEC
    );
}

fn setup(schemes: usize) -> Vec<SetupStep> {
    let mut steps = vec![SetupStep::first()];
    while let Some(next) = steps.last().unwrap().next(schemes) {
        steps.push(next);
        assert!(steps.len() < 100);
    }
    steps
}

#[test]
fn setup_runs_in_order() {
    assert_eq!(
        setup(2),
        vec![
            SetupStep::MakeNamespace,
            SetupStep::EnterNamespace,
            SetupStep::Register { index: 0 },
            SetupStep::Register { index: 1 },
            SetupStep::LeaveNamespace,
            SetupStep::MakeQueue,
            SetupStep::Watch { index: 0 },
            SetupStep::Watch { index: 1 },
            SetupStep::MakePipe,
            SetupStep::WatchPipe { key: 2 },
            SetupStep::Spawn,
        ]
    );
    assert_eq!(
        setup(0),
        vec![
            SetupStep::MakeNamespace,
            SetupStep::EnterNamespace,
            SetupStep::LeaveNamespace,
            SetupStep::MakeQueue,
            SetupStep::MakePipe,
            SetupStep::WatchPipe { key: 0 },
            SetupStep::Spawn,
        ]
    );
    assert_eq!(setup(5).len(), 17);
}

#[test]
fn the_worker_serves_a_batch_and_waits_again() {
    let w = Worker::new(2);
    assert_eq!(w.start(), (WorkerState::Waiting, WorkerAction::Wait));
    let (state, action) = w.step(WorkerState::Waiting, WorkerEvent::Ready(1));
    assert_eq!(state, WorkerState::Reading { scheme: 1 });
    assert_eq!(action, WorkerAction::Read { scheme: 1 });
    let (state, action) = w.step(state, WorkerEvent::Read(Some(2)));
    assert_eq!(state, WorkerState::Serving { scheme: 1, index: 0, count: 2 });
    assert_eq!(action, WorkerAction::Serve { scheme: 1, index: 0 });
    let (state, action) = w.step(state, WorkerEvent::Written(Some(1)));
    assert_eq!(state, WorkerState::Serving { scheme: 1, index: 1, count: 2 });
    assert_eq!(action, WorkerAction::Serve { scheme: 1, index: 1 });
    let (state, action) = w.step(state, WorkerEvent::Written(Some(1)));
    assert_eq!(state, WorkerState::Waiting);
    assert_eq!(action, WorkerAction::Wait);
}

#[test]
fn a_message_without_response_counts_as_served() {
    let w = Worker::new(1);
    let serving = WorkerState::Serving { scheme: 0, index: 0, count: 2 };
    let (state, action) = w.step(serving, WorkerEvent::Unanswered);
    assert_eq!(state, WorkerState::Serving { scheme: 0, index: 1, count: 2 });
    assert_eq!(action, WorkerAction::Serve { scheme: 0, index: 1 });
    let (state, action) = w.step(state, WorkerEvent::Unanswered);
    assert_eq!(state, WorkerState::Waiting);
    assert_eq!(action, WorkerAction::Wait);
    assert_eq!(
        w.step(WorkerState::Waiting, WorkerEvent::Unanswered),
        (WorkerState::Stopped, WorkerAction::CloseAll)
    );
}

#[test]
fn the_pipe_ends_the_worker() {
    let w = Worker::new(3);
    assert_eq!(
        w.step(WorkerState::Waiting, WorkerEvent::Ready(3)),
        (WorkerState::Stopped, WorkerAction::CloseAll)
    );
    let w = Worker::new(0);
    assert_eq!(
        w.step(WorkerState::Waiting, WorkerEvent::Ready(0)),
        (WorkerState::Stopped, WorkerAction::CloseAll)
    );
}

#[test]
fn the_worker_ends_on_what_it_cannot_handle() {
    let w = Worker::new(2);
    let stop = (WorkerState::Stopped, WorkerAction::CloseAll);
    assert_eq!(w.step(WorkerState::Waiting, WorkerEvent::Ready(7)), stop);
    assert_eq!(w.step(WorkerState::Waiting, WorkerEvent::QueueLost), stop);
    assert_eq!(w.step(WorkerState::Waiting, WorkerEvent::Read(Some(1))), stop);
    let reading = WorkerState::Reading { scheme: 0 };
    assert_eq!(w.step(reading, WorkerEvent::Read(Some(0))), stop);
    assert_eq!(w.step(reading, WorkerEvent::Read(None)), stop);
    assert_eq!(w.step(reading, WorkerEvent::Ready(0)), stop);
    let serving = WorkerState::Serving { scheme: 0, index: 0, count: 1 };
    assert_eq!(w.step(serving, WorkerEvent::Written(Some(0))), stop);
    assert_eq!(w.step(serving, WorkerEvent::Written(Some(2))), stop);
    assert_eq!(w.step(serving, WorkerEvent::Written(None)), stop);
    assert_eq!(w.step(serving, WorkerEvent::QueueLost), stop);
}

#[test]
fn a_stopped_worker_does_nothing_more() {
    let w = Worker::new(2);
    for event in [
        WorkerEvent::Ready(0),
        WorkerEvent::Ready(2),
        WorkerEvent::QueueLost,
        WorkerEvent::Read(Some(1)),
        WorkerEvent::Written(Some(1)),
    ] {
        assert_eq!(
            w.step(WorkerState::Stopped, event),
            (WorkerState::Stopped, WorkerAction::Nothing)
        );
    }
}

#[test]
fn the_worker_closes_its_sockets_once() {
    let w = Worker::new(1);
    let events = [
        WorkerEvent::Ready(0),
        WorkerEvent::Read(Some(1)),
        WorkerEvent::Written(Some(1)),
        WorkerEvent::Ready(1),
        WorkerEvent::Ready(1),
        WorkerEvent::Ready(0),
    ];
    let (mut state, _) = w.start();
    let mut closings = 0;
    for event in events {
        let (next, action) = w.step(state, event);
        if action == WorkerAction::CloseAll {
            closings += 1;
        }
        state = next;
    }
    assert_eq!(state, WorkerState::Stopped);
    assert_eq!(closings, 1);
}
