//! What the worker does with bytes, with time and with what it is told.
#[allow(unused_imports)]
use crate::pty::types::{ChildEvent, PtyCommand, WindowSize};
#[allow(unused_imports)]
use crate::pty::worker::{
    command_bytes, has_close, last_resize, law_commands_queue_bytes, law_write_keeps_order,
    OverlappedStart, ReadEnd, WorkerModel, WriteEnd,
};
#[allow(unused_imports)]
use crate::pty::worker_loop::{LoopAction, LoopEvent, LoopModel, Phase};
use vstd::prelude::*;

verus! {

/// The bytes that an event says were written, at most those that were under way.
pub open spec fn bytes_written(w: WorkerModel, event: LoopEvent) -> int {
    let n = match event {
        LoopEvent::WriteStarted(OverlappedStart::Completed(n)) => n as int,
        LoopEvent::WriteEnded(WriteEnd::Written(n)) => n as int,
        // A write that failed takes all that was under way with it.
        LoopEvent::WriteStarted(OverlappedStart::Failed) => w.inflight.len() as int,
        LoopEvent::WriteEnded(WriteEnd::Failed) => w.inflight.len() as int,
        _ => 0,
    };
    if n < w.inflight.len() {
        n
    } else {
        w.inflight.len() as int
    }
}

/// The bytes that an event brings.
pub open spec fn bytes_brought(event: LoopEvent) -> Seq<u8> {
    match event {
        LoopEvent::Commands(commands) => command_bytes(commands@, commands@.len() as int),
        _ => Seq::empty(),
    }
}

proof fn lemma_turns_keep_bytes(w: WorkerModel, now: u64)
    ensures
        w.turns(now).after.worker.outgoing() == w.outgoing(),
        w.winds_up(now).after.worker.outgoing() == w.outgoing(),
{
    law_write_keeps_order(w);
}

/// No byte is lost, doubled or put out of order: what waits to be written after a
/// step is what waited before, without those at its front that were written, and
/// with those at its end that were brought.
pub proof fn law_bytes_are_kept(m: LoopModel, event: LoopEvent, now: u64)
    requires
        m.awaits(event),
    ensures
        m.steps(event, now).after.worker.outgoing() == m.worker.outgoing().skip(
            bytes_written(m.worker, event),
        ) + bytes_brought(event),
{
    let w = m.worker;
    let out = w.outgoing();
    let none = Seq::<u8>::empty();
    assert(out.skip(0) + none =~= out);
    match (m.phase, event) {
        (Phase::FreshRead { first }, LoopEvent::ReadStarted(start)) => {
            let begun = w.read_begun(start, now);
            assert(begun.outgoing() =~= out);
            lemma_turns_keep_bytes(begun, now);
        },
        (Phase::SecondRead, LoopEvent::ReadStarted(start)) => {
            assert(w.read_begun(start, now).outgoing() =~= out);
        },
        (Phase::StartingWrite, LoopEvent::WriteStarted(start)) => {
            let issued = w.write_issued(start, now);
            let n = bytes_written(w, event);
            assert(issued.outgoing() =~= out.skip(n) + none);
        },
        (Phase::EndingWrite, LoopEvent::WriteEnded(end)) => {
            let over = w.write_over(Some(end), now);
            let n = bytes_written(w, event);
            assert(over.outgoing() =~= out.skip(n) + none);
            lemma_turns_keep_bytes(over, now);
        },
        (Phase::Waiting, LoopEvent::Woken(wait_result)) => {
            lemma_turns_keep_bytes(w, now);
            let over = w.write_over(None, now);
            assert(over.outgoing() =~= out);
            lemma_turns_keep_bytes(over, now);
        },
        (Phase::TakingCommands, LoopEvent::Commands(commands)) => {
            law_commands_queue_bytes(w, commands@, now, commands@.len() as int);
            assert(out.skip(0) =~= out);
        },
        (Phase::EndingRead, LoopEvent::ReadEnded(end)) => {
            let over = w.read_over(end, now);
            assert(over.outgoing() =~= out);
            lemma_turns_keep_bytes(over, now);
        },
        (Phase::AskingChild, LoopEvent::Child(event)) => {
            assert((WorkerModel { child_exited: true, ..w }).outgoing() =~= out);
            lemma_turns_keep_bytes(w, now);
        },
        _ => {
            lemma_turns_keep_bytes(w, now);
        },
    }
}

/// A write is of the bytes that have waited longest, of some at least and of no
/// more than 64 KiB, unless more than that was under way before.
pub proof fn law_what_is_written(m: LoopModel, event: LoopEvent, now: u64)
    requires
        m.awaits(event),
        m.steps(event, now).action is StartWrite,
    ensures
        ({
            let w = m.steps(event, now).after.worker;
            &&& w.inflight.len() > 0
            &&& w.outgoing().take(w.inflight.len() as int) == w.inflight
            &&& !w.write_pending
            &&& !w.child_exited
            &&& m.worker.inflight.len() == 0 ==> w.inflight.len() <= 0x1_0000
        }),
{
    let w = m.steps(event, now).after.worker;
    assert(w.outgoing().take(w.inflight.len() as int) =~= w.inflight);
    match (m.phase, event) {
        (Phase::FreshRead { first }, LoopEvent::ReadStarted(start)) => {
            law_write_keeps_order(m.worker.read_begun(start, now));
        },
        (Phase::EndingWrite, LoopEvent::WriteEnded(end)) => {
            law_write_keeps_order(m.worker.write_over(Some(end), now));
        },
        (Phase::Waiting, LoopEvent::Woken(wait_result)) => {
            law_write_keeps_order(m.worker);
            law_write_keeps_order(m.worker.write_over(None, now));
        },
        (Phase::EndingRead, LoopEvent::ReadEnded(end)) => {
            law_write_keeps_order(m.worker.read_over(end, now));
        },
        _ => {
            law_write_keeps_order(m.worker);
        },
    }
}

/// The output that is set aside is as long as what was read, and something was.
/// A read that ends without anything, or fails, begins the shutdown.
pub proof fn law_what_is_read(m: LoopModel, event: LoopEvent, now: u64, n: usize)
    requires
        m.awaits(event),
    ensures
        m.steps(event, now).action == LoopAction::Hold(n) <==> n > 0 && {
            ||| event == LoopEvent::ReadStarted(OverlappedStart::Completed(n))
            ||| n <= u32::MAX && event == LoopEvent::ReadEnded(ReadEnd::Read(n as u32))
        },
        event == LoopEvent::ReadStarted(OverlappedStart::Completed(0)) || event
            == LoopEvent::ReadStarted(OverlappedStart::Failed) || event == LoopEvent::ReadEnded(
            ReadEnd::Read(0),
        ) || event == LoopEvent::ReadEnded(ReadEnd::Failed) || event == LoopEvent::ReadEnded(
            ReadEnd::Incomplete,
        ) || event == LoopEvent::WriteStarted(OverlappedStart::Failed) || event
            == LoopEvent::WriteEnded(WriteEnd::Failed) ==> m.steps(event, now).after.worker.closing,
{
}

/// The shutdown begins only because of a close, a read without anything, or a
/// failure; its time is then up after a second, and that does not change.
pub proof fn law_when_the_shutdown_begins(m: LoopModel, event: LoopEvent, now: u64)
    requires
        m.awaits(event),
        m.worker.closing == m.worker.deadline is Some,
    ensures
        ({
            let after = m.steps(event, now).after.worker;
            let begins = match event {
                LoopEvent::ReadStarted(start) => start is Failed || start
                    == OverlappedStart::Completed(0),
                LoopEvent::ReadEnded(end) => !(end is Read) || end == ReadEnd::Read(0),
                LoopEvent::WriteStarted(start) => start is Failed,
                LoopEvent::WriteEnded(end) => end is Failed,
                LoopEvent::Commands(commands) => exists|i: int|
                    0 <= i < commands@.len() && (#[trigger] commands@[i]) is Close,
                _ => false,
            };
            &&& after.closing <==> m.worker.closing || begins
            &&& m.worker.closing ==> after.deadline == m.worker.deadline
            &&& !m.worker.closing && begins && now + 1_000_000_000 <= u64::MAX ==> after.deadline
                == Some((now + 1_000_000_000) as u64)
            &&& after.closing == after.deadline is Some
        }),
{
    if let LoopEvent::Commands(commands) = event {
        lemma_commands_close(m.worker, commands@, now, commands@.len() as int);
    }
}

proof fn lemma_commands_close(w: WorkerModel, commands: Seq<PtyCommand>, now: u64, n: int)
    requires
        0 <= n <= commands.len(),
        w.closing == w.deadline is Some,
    ensures
        ({
            let after = w.commanded(commands, now, n);
            &&& after.closing == (w.closing || has_close(commands, n))
            &&& w.closing ==> after.deadline == w.deadline
            &&& !w.closing && has_close(commands, n) && now + 1_000_000_000 <= u64::MAX
                ==> after.deadline == Some((now + 1_000_000_000) as u64)
            &&& after.closing == after.deadline is Some
        }),
    decreases n,
{
    if n > 0 {
        lemma_commands_close(w, commands, now, n - 1);
        if has_close(commands, n - 1) {
            let k = choose|k: int| 0 <= k < n - 1 && (#[trigger] commands[k]) is Close;
            assert(commands[k] is Close && k < n);
        }
        if commands[n - 1] is Close {
            assert(has_close(commands, n));
        } else if has_close(commands, n) {
            let k = choose|k: int| 0 <= k < n && (#[trigger] commands[k]) is Close;
            assert(commands[k] is Close && k < n - 1);
        }
    }
}

/// Commands are carried out once they were taken: the console begins to close at
/// the first close, and gets the last size that was asked for, if any was.
pub proof fn law_what_commands_ask(m: LoopModel, commands: Vec<PtyCommand>, now: u64, size: WindowSize)
    requires
        m.phase is TakingCommands,
    ensures
        m.steps(LoopEvent::Commands(commands), now).action matches LoopAction::Apply {
            start_shutdown,
            resize,
        } && {
            &&& start_shutdown <==> !m.worker.closing && exists|i: int|
                0 <= i < commands@.len() && (#[trigger] commands@[i]) is Close
            &&& resize == Some(size) <==> exists|i: int|
                0 <= i < commands@.len() && #[trigger] commands@[i] == PtyCommand::Resize(size) && (
                forall|j: int| i < j < commands@.len() ==> !((#[trigger] commands@[j]) is Resize))
            &&& resize is None <==> forall|i: int|
                0 <= i < commands@.len() ==> !((#[trigger] commands@[i]) is Resize)
        },
{
    lemma_last_resize(commands@, commands@.len() as int, size);
}

proof fn lemma_last_resize(commands: Seq<PtyCommand>, n: int, size: WindowSize)
    requires
        0 <= n <= commands.len(),
    ensures
        last_resize(commands, n) == Some(size) <==> exists|i: int|
            0 <= i < n && #[trigger] commands[i] == PtyCommand::Resize(size) && (forall|j: int|
                i < j < n ==> !((#[trigger] commands[j]) is Resize)),
        last_resize(commands, n) is None <==> forall|i: int|
            0 <= i < n ==> !((#[trigger] commands[i]) is Resize),
    decreases n,
{
    if n > 0 {
        lemma_last_resize(commands, n - 1, size);
        match commands[n - 1] {
            PtyCommand::Resize(last) => {
                if last == size {
                    assert(commands[n - 1] == PtyCommand::Resize(size));
                }
            },
            _ => {
                if last_resize(commands, n - 1) == Some(size) {
                    let i = choose|i: int|
                        0 <= i < n - 1 && #[trigger] commands[i] == PtyCommand::Resize(size) && (
                        forall|j: int| i < j < n - 1 ==> !((#[trigger] commands[j]) is Resize));
                    assert(commands[i] == PtyCommand::Resize(size) && i < n);
                }
                if exists|i: int|
                    0 <= i < n && #[trigger] commands[i] == PtyCommand::Resize(size) && (forall|
                        j: int,
                    |
                        i < j < n ==> !((#[trigger] commands[j]) is Resize)) {
                    let i = choose|i: int|
                        0 <= i < n && #[trigger] commands[i] == PtyCommand::Resize(size) && (forall|
                            j: int,
                        |
                            i < j < n ==> !((#[trigger] commands[j]) is Resize));
                    assert(i < n - 1);
                }
            },
        }
    }
}

/// What comes after waiting: the things waited for are the commands, the child,
/// the read and the write, in this order; time that is up is nothing by itself, and
/// any other answer means that waiting failed.
pub proof fn law_what_follows_waiting(m: LoopModel, result: u32, now: u64)
    requires
        m.phase is Waiting,
    ensures
        ({
            let action = m.steps(LoopEvent::Woken(result), now).action;
            &&& result == 0 <==> action is TakeCommands
            &&& result == 1 <==> action is AskChild
            &&& result == 2 <==> action is AskReadEnd
            &&& result == 3 && m.worker.inflight.len() > 0 <==> action is AskWriteEnd
            &&& result > 3 && result != 258 <==> action is ReportWaitError
        }),
{
}

/// The exit of the child is told with the code that it left.
pub proof fn law_exit_code_is_passed_on(m: LoopModel, event: Option<ChildEvent>, now: u64)
    requires
        m.phase is AskingChild,
    ensures
        event matches Some(ChildEvent::Exited(code)) ==> m.steps(
            LoopEvent::Child(event),
            now,
        ).action == LoopAction::ReportExit(code),
        event is None ==> !(m.steps(LoopEvent::Child(event), now).action is ReportExit),
{
}

/// The child is ended only if it is past its time in a shutdown, and it is then told
/// to be gone.
pub proof fn law_overdue_child_is_ended(m: LoopModel, event: LoopEvent, now: u64)
    requires
        m.awaits(event),
        m.steps(event, now).action is ForceTerminate,
    ensures
        m.steps(event, now).after.worker.closing,
        m.steps(event, now).after.worker.deadline matches Some(deadline) && deadline <= now,
        m.steps(event, now).after.phase is Terminating,
        m.steps(event, now).after.worker.child_exited,
{
}

/// A child that was ended is told to be gone, without a code, and then all is over.
pub proof fn law_ended_child_is_told(m: LoopModel, now: u64, later: u64)
    requires
        m.phase is Terminating,
    ensures
        m.steps(LoopEvent::Done, now).action == LoopAction::ReportExit(None),
        m.steps(LoopEvent::Done, now).after.steps(LoopEvent::Done, later).action is End,
        m.steps(LoopEvent::Done, now).after.steps(LoopEvent::Done, later).after.phase is Ended,
{
}

/// In a shutdown that is past its time nothing that has ended is followed by more
/// waiting: the child is ended, or all is over.
pub proof fn law_nothing_is_awaited_past_the_time(m: LoopModel, event: LoopEvent, now: u64)
    requires
        m.awaits(event),
        m.phase is Waiting || m.phase is EndingRead || m.phase is EndingWrite || m.phase is AskingChild
            || m.phase is Applying || m.phase is Telling || m.phase is Emitting,
        m.worker.closing,
        m.worker.deadline matches Some(deadline) && deadline <= now,
    ensures
        !(m.steps(event, now).action is Wait),
        !(m.steps(event, now).action is StartRead),
        !(m.steps(event, now).action is StartWrite),
{
}

/// Output is waited for until there is room, unless the shutdown has begun before
/// it was read.
pub proof fn law_how_output_is_sent(m: LoopModel, event: LoopEvent, now: u64)
    requires
        m.awaits(event),
        m.steps(event, now).action is Emit,
    ensures
        m.steps(event, now).action == (LoopAction::Emit {
            wait: m.phase is FreshHold || !m.steps(event, now).after.worker.closing,
        }),
{
}

/// The loop ends when the child is gone, when nobody takes the output any more, or
/// when waiting failed. What is still under way is then given up, and the exit is
/// told if it was not.
pub proof fn law_how_the_loop_ends(m: LoopModel, event: LoopEvent, now: u64)
    requires
        m.awaits(event),
        m.steps(event, now).after.phase is Ended,
    ensures
        m.worker.child_exited || event == LoopEvent::Emitted(false) || m.phase is Failing
            || m.phase is TellingGone,
        m.steps(event, now).action matches LoopAction::End(end) && {
            let w = m.steps(event, now).after.worker;
            &&& end.cancel_read == w.read_pending
            &&& end.cancel_write == w.write_pending
            &&& end.report_exit == !w.child_exited
        },
{
}

proof fn lemma_timeout(w: WorkerModel, now: u64)
    ensures
        w.deadline is None ==> w.timeout(now) == 0xffff_ffff,
        w.deadline matches Some(deadline) ==> {
            let timeout = w.timeout(now);
            &&& 0 <= timeout <= 0xffff_ffff
            &&& deadline <= now ==> timeout == 0
            &&& deadline > now ==> now + timeout * 1_000_000 <= deadline
            &&& deadline > now && timeout < 0xffff_ffff ==> deadline < now + (timeout + 1)
                * 1_000_000
        },
{
    if let Some(deadline) = w.deadline {
        if deadline > now {
            let left = deadline - now;
            assert(left / 1_000_000 * 1_000_000 <= left < (left / 1_000_000 + 1) * 1_000_000);
        }
    }
}

/// How long the worker waits: without end while there is no shutdown; else no
/// longer than until its time is up, to the millisecond.
pub proof fn law_how_long_is_waited(m: LoopModel, event: LoopEvent, now: u64)
    requires
        m.awaits(event),
        m.steps(event, now).action is Wait,
    ensures
        m.steps(event, now).action matches LoopAction::Wait { handles, timeout } && {
            let w = m.steps(event, now).after.worker;
            &&& handles == if w.write_pending {
                4u32
            } else {
                3u32
            }
            &&& w.deadline is None ==> timeout == 0xffff_ffff
            &&& w.deadline matches Some(deadline) ==> {
                &&& deadline <= now ==> timeout == 0
                &&& deadline > now ==> now + timeout * 1_000_000 <= deadline
                &&& deadline > now && timeout < 0xffff_ffff ==> deadline < now + (timeout + 1)
                    * 1_000_000
            }
        },
{
    let w = m.steps(event, now).after.worker;
    lemma_timeout(w, now);
    assert(m.steps(event, now).action == w.waits(now).action);
}

} // verus!
