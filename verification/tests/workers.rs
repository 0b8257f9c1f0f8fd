use rustty::pty::types::{ChildEvent, PtyCommand, WindowSize};
use rustty::pty::worker::{OverlappedStart, ReadEnd, WorkerEnd, WriteEnd, INFINITE, WAIT_TIMEOUT};
use rustty::pty::worker_loop::{LoopAction, LoopEvent, WorkerLoop};

const WAIT: LoopAction = LoopAction::Wait { handles: 3, timeout: INFINITE };

fn end(cancel_read: bool, cancel_write: bool, report_exit: bool) -> LoopAction {
    LoopAction::End(WorkerEnd { cancel_read, cancel_write, report_exit })
}

// A loop that waits with a read under way.
fn waiting() -> WorkerLoop {
    let mut worker = WorkerLoop::new();
    assert_eq!(worker.step(LoopEvent::Done, 0), LoopAction::StartRead);
    assert_eq!(worker.step(LoopEvent::ReadStarted(OverlappedStart::Pending), 0), WAIT);
    worker
}

fn commands(worker: &mut WorkerLoop, list: Vec<PtyCommand>, now: u64) -> LoopAction {
    assert_eq!(worker.step(LoopEvent::Woken(0), now), LoopAction::TakeCommands);
    worker.step(LoopEvent::Commands(list), now)
}

#[test]
fn output_goes_out_before_the_next_wait() {
    let mut worker = waiting();
    assert_eq!(worker.step(LoopEvent::Woken(2), 0), LoopAction::AskReadEnd);
    assert_eq!(worker.step(LoopEvent::ReadEnded(ReadEnd::Read(5)), 0), LoopAction::Hold(5));
    // The next read begins before the output goes out.
    assert_eq!(worker.step(LoopEvent::Done, 0), LoopAction::StartRead);
    assert_eq!(
        worker.step(LoopEvent::ReadStarted(OverlappedStart::Completed(7)), 0),
        LoopAction::Hold(7)
    );
    assert_eq!(worker.step(LoopEvent::Done, 0), LoopAction::Emit { wait: true });
    assert_eq!(worker.step(LoopEvent::Emitted(true), 0), LoopAction::Emit { wait: true });
    // No read is under way, so one is started.
    assert_eq!(worker.step(LoopEvent::Emitted(true), 0), LoopAction::StartRead);
    assert_eq!(worker.step(LoopEvent::ReadStarted(OverlappedStart::Pending), 0), WAIT);
}

#[test]
fn commands_are_carried_out_and_written() {
    let mut worker = waiting();
    let size = WindowSize { num_lines: 2, num_cols: 3, cell_width: 4, cell_height: 5 };
    let action = commands(
        &mut worker,
        vec![
            PtyCommand::Write(b"ab".to_vec()),
            PtyCommand::Resize(size),
            PtyCommand::Write(b"c".to_vec()),
        ],
        0,
    );
    assert_eq!(action, LoopAction::Apply { start_shutdown: false, resize: Some(size) });
    assert_eq!(worker.step(LoopEvent::Done, 0), LoopAction::StartWrite);
    assert_eq!(worker.inflight(), b"abc");
    assert_eq!(
        worker.step(LoopEvent::WriteStarted(OverlappedStart::Pending), 0),
        LoopAction::Wait { handles: 4, timeout: INFINITE }
    );
    assert_eq!(worker.step(LoopEvent::Woken(3), 0), LoopAction::AskWriteEnd);
    // What was not written is written next.
    assert_eq!(
        worker.step(LoopEvent::WriteEnded(WriteEnd::Written(2)), 0),
        LoopAction::StartWrite
    );
    assert_eq!(worker.inflight(), b"c");
    assert_eq!(worker.step(LoopEvent::WriteStarted(OverlappedStart::Completed(1)), 0), WAIT);
    assert_eq!(worker.step(LoopEvent::Woken(WAIT_TIMEOUT), 0), WAIT);
}

#[test]
fn an_exit_ends_the_loop() {
    let mut worker = waiting();
    assert_eq!(worker.step(LoopEvent::Woken(1), 0), LoopAction::AskChild);
    assert_eq!(worker.step(LoopEvent::Child(None), 0), WAIT);
    assert_eq!(worker.step(LoopEvent::Woken(1), 0), LoopAction::AskChild);
    assert_eq!(
        worker.step(LoopEvent::Child(Some(ChildEvent::Exited(Some(3)))), 0),
        LoopAction::ReportExit(Some(3))
    );
    // The exit was told, so the end does not tell it again.
    assert_eq!(worker.step(LoopEvent::Done, 0), end(true, false, false));
    assert!(worker.is_over());
    assert!(!worker.expects(&LoopEvent::Done));
}

#[test]
fn an_overdue_child_is_ended() {
    let mut worker = waiting();
    let action = commands(&mut worker, vec![PtyCommand::Close, PtyCommand::Close], 1_000);
    assert_eq!(action, LoopAction::Apply { start_shutdown: true, resize: None });
    assert_eq!(
        worker.step(LoopEvent::Done, 1_000),
        LoopAction::Wait { handles: 3, timeout: 1_000 }
    );
    // Closing again begins nothing and moves no deadline.
    let action = commands(&mut worker, vec![PtyCommand::Close], 500_001_000);
    assert_eq!(action, LoopAction::Apply { start_shutdown: false, resize: None });
    assert_eq!(
        worker.step(LoopEvent::Done, 500_001_000),
        LoopAction::Wait { handles: 3, timeout: 500 }
    );
    let late = 1_000_001_000;
    assert_eq!(worker.step(LoopEvent::Woken(WAIT_TIMEOUT), late), LoopAction::ForceTerminate);
    assert_eq!(worker.step(LoopEvent::Done, late), LoopAction::ReportExit(None));
    assert_eq!(worker.step(LoopEvent::Done, late), end(true, false, false));
}

#[test]
fn a_consumer_that_is_gone_ends_the_loop() {
    let mut worker = WorkerLoop::new();
    worker.step(LoopEvent::Done, 0);
    let start = OverlappedStart::Completed(4);
    assert_eq!(worker.step(LoopEvent::ReadStarted(start), 0), LoopAction::Hold(4));
    assert_eq!(worker.step(LoopEvent::Done, 0), LoopAction::Emit { wait: true });
    // At the very first output nothing is cleaned up.
    assert_eq!(worker.step(LoopEvent::Emitted(false), 0), LoopAction::Stop);
    assert!(worker.is_over());

    let mut worker = waiting();
    worker.step(LoopEvent::Woken(2), 0);
    worker.step(LoopEvent::ReadEnded(ReadEnd::Read(1)), 0);
    worker.step(LoopEvent::Done, 0);
    assert_eq!(
        worker.step(LoopEvent::ReadStarted(OverlappedStart::Pending), 0),
        LoopAction::Emit { wait: true }
    );
    assert_eq!(worker.step(LoopEvent::Emitted(false), 0), end(true, false, true));
}

#[test]
fn output_does_not_wait_while_closing() {
    let mut worker = waiting();
    commands(&mut worker, vec![PtyCommand::Close], 0);
    worker.step(LoopEvent::Done, 0);
    worker.step(LoopEvent::Woken(2), 0);
    assert_eq!(worker.step(LoopEvent::ReadEnded(ReadEnd::Read(1)), 0), LoopAction::Hold(1));
    // No further read is started, and the output goes only where there is room.
    assert_eq!(worker.step(LoopEvent::Done, 0), LoopAction::Emit { wait: false });
    assert_eq!(
        worker.step(LoopEvent::Emitted(true), 0),
        LoopAction::Wait { handles: 3, timeout: 1_000 }
    );
}

#[test]
fn failures_begin_the_shutdown() {
    for ended in [ReadEnd::Read(0), ReadEnd::Incomplete, ReadEnd::Failed] {
        let mut worker = waiting();
        worker.step(LoopEvent::Woken(2), 0);
        assert_eq!(
            worker.step(LoopEvent::ReadEnded(ended), 0),
            LoopAction::Wait { handles: 3, timeout: 1_000 }
        );
    }
    let mut worker = waiting();
    commands(&mut worker, vec![PtyCommand::Write(b"x".to_vec())], 0);
    worker.step(LoopEvent::Done, 0);
    assert_eq!(
        worker.step(LoopEvent::WriteStarted(OverlappedStart::Failed), 0),
        LoopAction::Wait { handles: 3, timeout: 1_000 }
    );
    assert!(worker.inflight().is_empty());

    let mut worker = waiting();
    assert_eq!(worker.step(LoopEvent::Woken(u32::MAX), 0), LoopAction::ReportWaitError);
    assert_eq!(worker.step(LoopEvent::Done, 0), end(true, false, true));
}

#[test]
fn only_fitting_events_are_expected() {
    let mut worker = WorkerLoop::new();
    assert!(worker.expects(&LoopEvent::Done));
    assert!(!worker.expects(&LoopEvent::Woken(0)));
    worker.step(LoopEvent::Done, 0);
    assert!(worker.expects(&LoopEvent::ReadStarted(OverlappedStart::Pending)));
    assert!(!worker.expects(&LoopEvent::Done));
}
