//! The loop that the worker goes through, one step at a time.
//!
//! Each step takes what became of the last action and gives the next one. The
//! actions are carried out by whoever runs the loop.
#[allow(unused_imports)]
use crate::pty::types::{ChildEvent, PtyCommand, WindowSize};
use crate::pty::worker::{wake_of, OverlappedStart, ReadEnd, Wake, Worker, WorkerEnd, WriteEnd};
#[allow(unused_imports)]
use crate::pty::worker::{has_close, last_resize, WorkerModel, INFINITE, WAIT_OBJECT_0, WAIT_TIMEOUT};
use vstd::prelude::*;

verus! {

/// Where the loop stands: which action is under way.
#[derive(Clone, Copy, Debug, PartialEq, Eq, Structural)]
pub enum Phase {
    /// Nothing was done yet.
    New,
    /// A read is being started; `first` for the very first one.
    FreshRead { first: bool },
    /// What such a read gave at once is being set aside.
    FreshHold { first: bool },
    /// That output is being sent.
    FreshEmit { first: bool },
    StartingWrite,
    Waiting,
    TakingCommands,
    Applying,
    AskingChild,
    /// The exit of the child is being told.
    Telling,
    EndingRead,
    /// What a read gave is being set aside.
    Holding,
    /// Another read is being started before that output is sent.
    SecondRead,
    /// What the other read gave at once is being set aside too.
    SecondHold,
    /// Outputs are being sent; `more` after the present one.
    Emitting { more: bool },
    EndingWrite,
    Terminating,
    /// That the child was ended is being told.
    TellingGone,
    /// That waiting failed is being told.
    Failing,
    /// All is done but for cleaning up.
    Ended,
    /// Nobody is left to serve.
    Stopped,
}

/// What became of an action.
#[derive(Debug)]
pub enum LoopEvent {
    /// The loop begins, or the action is carried out.
    Done,
    ReadStarted(OverlappedStart),
    WriteStarted(OverlappedStart),
    /// The result of waiting.
    Woken(u32),
    Commands(Vec<PtyCommand>),
    Child(Option<ChildEvent>),
    ReadEnded(ReadEnd),
    WriteEnded(WriteEnd),
    /// Whether the output could be sent.
    Emitted(bool),
}

/// What to do next.
#[derive(Clone, Copy, Debug, PartialEq, Eq, Structural)]
pub enum LoopAction {
    /// Start a read into the read buffer.
    StartRead,
    /// Set the first bytes of the read buffer aside as output, and take a fresh
    /// buffer.
    Hold(usize),
    /// Send the oldest output that was set aside; wait for room only if asked
    /// to.
    Emit { wait: bool },
    /// Start a write of [`WorkerLoop::inflight`].
    StartWrite,
    /// Wait for the first so many things, no longer than so many milliseconds.
    Wait { handles: u32, timeout: u32 },
    /// Take the commands that have come.
    TakeCommands,
    /// Begin the shutdown and change the size, as asked.
    Apply { start_shutdown: bool, resize: Option<WindowSize> },
    /// Ask what became of the child.
    AskChild,
    /// Tell that the child has exited.
    ReportExit(Option<u32>),
    /// Ask how the read ended.
    AskReadEnd,
    /// Ask how the write ended.
    AskWriteEnd,
    /// End the child.
    ForceTerminate,
    /// Tell that waiting failed.
    ReportWaitError,
    /// Clean up.
    End(WorkerEnd),
    /// Leave at once.
    Stop,
}

/// The loop at one moment.
#[verifier::ext_equal]
pub struct LoopModel {
    pub worker: WorkerModel,
    pub phase: Phase,
}

/// A step of the loop.
#[verifier::ext_equal]
pub struct LoopStep {
    pub after: LoopModel,
    pub action: LoopAction,
}

impl WorkerModel {
    /// What is left to do at the end.
    pub open spec fn end(self) -> WorkerEnd {
        WorkerEnd {
            cancel_read: self.read_pending,
            cancel_write: self.write_pending,
            report_exit: !self.child_exited,
        }
    }

    /// How long to wait, in milliseconds.
    pub open spec fn timeout(self, now: u64) -> int {
        match self.deadline {
            None => INFINITE as int,
            Some(deadline) => {
                let left = if deadline < now {
                    0
                } else {
                    (deadline - now) / 1_000_000
                };
                if left > u32::MAX {
                    u32::MAX as int
                } else {
                    left
                }
            },
        }
    }

    /// The shutdown is past its deadline.
    pub open spec fn overdue(self, now: u64) -> bool {
        &&& self.closing
        &&& !self.child_exited
        &&& self.deadline matches Some(deadline) && now >= deadline
    }

    /// The way out.
    pub open spec fn ended(self) -> LoopStep {
        LoopStep {
            after: LoopModel { worker: self, phase: Phase::Ended },
            action: LoopAction::End(self.end()),
        }
    }

    /// Wait for whatever comes first.
    pub open spec fn waits(self, now: u64) -> LoopStep {
        LoopStep {
            after: LoopModel { worker: self, phase: Phase::Waiting },
            action: LoopAction::Wait {
                handles: if self.write_pending {
                    4
                } else {
                    3
                },
                timeout: self.timeout(now) as u32,
            },
        }
    }

    /// The start of a turn: it is the last if the child is gone; else bytes are
    /// written, if there are some, before waiting.
    pub open spec fn turns(self, now: u64) -> LoopStep {
        if self.child_exited {
            self.ended()
        } else if !self.write_pending && self.outgoing().len() > 0 {
            LoopStep {
                after: LoopModel { worker: self.write_begun(), phase: Phase::StartingWrite },
                action: LoopAction::StartWrite,
            }
        } else {
            self.waits(now)
        }
    }

    /// The end of a turn: a child that is overdue is ended; else there has to be
    /// a read under way, unless the shutdown has begun.
    pub open spec fn winds_up(self, now: u64) -> LoopStep {
        if self.overdue(now) {
            LoopStep {
                after: LoopModel {
                    worker: WorkerModel { child_exited: true, ..self },
                    phase: Phase::Terminating,
                },
                action: LoopAction::ForceTerminate,
            }
        } else if !self.closing && !self.read_pending {
            LoopStep {
                after: LoopModel { worker: self, phase: Phase::FreshRead { first: false } },
                action: LoopAction::StartRead,
            }
        } else {
            self.turns(now)
        }
    }

    /// A read was started.
    pub open spec fn read_begun(self, start: OverlappedStart, now: u64) -> WorkerModel {
        match start {
            OverlappedStart::Pending => WorkerModel { read_pending: true, ..self },
            OverlappedStart::Completed(n) => if n == 0 {
                WorkerModel { read_pending: false, ..self.marked_closing(now) }
            } else {
                WorkerModel { read_pending: false, ..self }
            },
            OverlappedStart::Failed => WorkerModel {
                read_pending: false,
                ..self.marked_closing(now)
            },
        }
    }

    /// A read has ended.
    pub open spec fn read_over(self, end: ReadEnd, now: u64) -> WorkerModel {
        WorkerModel {
            read_pending: false,
            ..if given_by_end(end) is None {
                self.marked_closing(now)
            } else {
                self
            }
        }
    }

    /// A write was started.
    pub open spec fn write_issued(self, start: OverlappedStart, now: u64) -> WorkerModel {
        match start {
            OverlappedStart::Pending => WorkerModel { write_pending: true, ..self },
            OverlappedStart::Completed(n) => WorkerModel {
                write_pending: false,
                ..self.written(n as int)
            },
            OverlappedStart::Failed => WorkerModel {
                write_pending: false,
                inflight: Seq::empty(),
                ..self.marked_closing(now)
            },
        }
    }

    /// A write has ended.
    pub open spec fn write_over(self, end: Option<WriteEnd>, now: u64) -> WorkerModel {
        WorkerModel {
            write_pending: false,
            ..match end {
                Some(WriteEnd::Written(n)) => self.written(n as int),
                Some(WriteEnd::Failed) => WorkerModel {
                    inflight: Seq::empty(),
                    ..self.marked_closing(now)
                },
                _ => self,
            }
        }
    }
}

/// The bytes that a read gave at once.
pub open spec fn given_at_once(start: OverlappedStart) -> Option<usize> {
    match start {
        OverlappedStart::Completed(n) => if n == 0 {
            None
        } else {
            Some(n)
        },
        _ => None,
    }
}

/// The bytes that a read gave in the end.
pub open spec fn given_by_end(end: ReadEnd) -> Option<usize> {
    match end {
        ReadEnd::Read(n) => if n == 0 {
            None
        } else {
            Some(n as usize)
        },
        _ => None,
    }
}

impl LoopModel {
    /// Nothing was done yet.
    pub open spec fn fresh() -> LoopModel {
        LoopModel {
            worker: WorkerModel {
                queued: Seq::empty(),
                inflight: Seq::empty(),
                read_pending: false,
                write_pending: false,
                closing: false,
                child_exited: false,
                deadline: None,
            },
            phase: Phase::New,
        }
    }

    /// The event is one that the action under way can have.
    pub open spec fn awaits(self, event: LoopEvent) -> bool {
        match self.phase {
            Phase::New => event is Done,
            Phase::FreshRead { first } => event is ReadStarted,
            Phase::FreshHold { first } => event is Done,
            Phase::FreshEmit { first } => event is Emitted,
            Phase::StartingWrite => event is WriteStarted,
            Phase::Waiting => event is Woken,
            Phase::TakingCommands => event is Commands,
            Phase::Applying => event is Done,
            Phase::AskingChild => event is Child,
            Phase::Telling => event is Done,
            Phase::EndingRead => event is ReadEnded,
            Phase::Holding => event is Done,
            Phase::SecondRead => event is ReadStarted,
            Phase::SecondHold => event is Done,
            Phase::Emitting { more } => event is Emitted,
            Phase::EndingWrite => event is WriteEnded,
            Phase::Terminating => event is Done,
            Phase::TellingGone => event is Done,
            Phase::Failing => event is Done,
            Phase::Ended => false,
            Phase::Stopped => false,
        }
    }

    /// The same worker goes on with an action.
    pub open spec fn goes(self, phase: Phase, action: LoopAction) -> LoopStep {
        LoopStep { after: LoopModel { phase, ..self }, action }
    }

    /// What follows waiting.
    pub open spec fn wakes(self, wait_result: u32, now: u64) -> LoopStep {
        if wait_result == WAIT_OBJECT_0 {
            self.goes(Phase::TakingCommands, LoopAction::TakeCommands)
        } else if wait_result == WAIT_OBJECT_0 + 1 {
            self.goes(Phase::AskingChild, LoopAction::AskChild)
        } else if wait_result == WAIT_OBJECT_0 + 2 {
            self.goes(Phase::EndingRead, LoopAction::AskReadEnd)
        } else if wait_result == WAIT_OBJECT_0 + 3 {
            if self.worker.inflight.len() > 0 {
                self.goes(Phase::EndingWrite, LoopAction::AskWriteEnd)
            } else {
                self.worker.write_over(None, now).winds_up(now)
            }
        } else if wait_result == WAIT_TIMEOUT {
            self.worker.winds_up(now)
        } else {
            self.goes(Phase::Failing, LoopAction::ReportWaitError)
        }
    }

    /// The step that an event leads to.
    pub open spec fn steps(self, event: LoopEvent, now: u64) -> LoopStep {
        let w = self.worker;
        match (self.phase, event) {
            (Phase::New, _) => self.goes(
                Phase::FreshRead { first: true },
                LoopAction::StartRead,
            ),
            (Phase::FreshRead { first }, LoopEvent::ReadStarted(start)) => {
                let begun = w.read_begun(start, now);
                match given_at_once(start) {
                    Some(n) => LoopModel { worker: begun, ..self }.goes(
                        Phase::FreshHold { first },
                        LoopAction::Hold(n),
                    ),
                    None => begun.turns(now),
                }
            },
            (Phase::FreshHold { first }, _) => self.goes(
                Phase::FreshEmit { first },
                LoopAction::Emit { wait: true },
            ),
            (Phase::FreshEmit { first }, LoopEvent::Emitted(sent)) => if sent {
                w.turns(now)
            } else if first {
                self.goes(Phase::Stopped, LoopAction::Stop)
            } else {
                w.ended()
            },
            (Phase::StartingWrite, LoopEvent::WriteStarted(start)) => w.write_issued(
                start,
                now,
            ).waits(now),
            (Phase::Waiting, LoopEvent::Woken(wait_result)) => self.wakes(wait_result, now),
            (Phase::TakingCommands, LoopEvent::Commands(commands)) => {
                let n = commands@.len() as int;
                LoopModel { worker: w.commanded(commands@, now, n), ..self }.goes(
                    Phase::Applying,
                    LoopAction::Apply {
                        start_shutdown: !w.closing && has_close(commands@, n),
                        resize: last_resize(commands@, n),
                    },
                )
            },
            (Phase::AskingChild, LoopEvent::Child(event)) => match event {
                Some(ChildEvent::Exited(code)) => LoopModel {
                    worker: WorkerModel { child_exited: true, ..w },
                    ..self
                }.goes(Phase::Telling, LoopAction::ReportExit(code)),
                None => w.winds_up(now),
            },
            (Phase::EndingRead, LoopEvent::ReadEnded(end)) => {
                let over = w.read_over(end, now);
                match given_by_end(end) {
                    Some(n) => LoopModel { worker: over, ..self }.goes(
                        Phase::Holding,
                        LoopAction::Hold(n),
                    ),
                    None => over.winds_up(now),
                }
            },
            (Phase::Holding, _) => if w.closing {
                self.goes(Phase::Emitting { more: false }, LoopAction::Emit { wait: false })
            } else {
                self.goes(Phase::SecondRead, LoopAction::StartRead)
            },
            (Phase::SecondRead, LoopEvent::ReadStarted(start)) => {
                let begun = w.read_begun(start, now);
                match given_at_once(start) {
                    Some(n) => LoopModel { worker: begun, ..self }.goes(
                        Phase::SecondHold,
                        LoopAction::Hold(n),
                    ),
                    None => LoopModel { worker: begun, ..self }.goes(
                        Phase::Emitting { more: false },
                        LoopAction::Emit { wait: !begun.closing },
                    ),
                }
            },
            (Phase::SecondHold, _) => self.goes(
                Phase::Emitting { more: true },
                LoopAction::Emit { wait: !w.closing },
            ),
            (Phase::Emitting { more }, LoopEvent::Emitted(sent)) => if !sent {
                w.ended()
            } else if more {
                self.goes(Phase::Emitting { more: false }, LoopAction::Emit { wait: !w.closing })
            } else {
                w.winds_up(now)
            },
            (Phase::EndingWrite, LoopEvent::WriteEnded(end)) => w.write_over(
                Some(end),
                now,
            ).winds_up(now),
            (Phase::Terminating, _) => self.goes(
                Phase::TellingGone,
                LoopAction::ReportExit(None),
            ),
            (Phase::TellingGone, _) => w.ended(),
            (Phase::Failing, _) => w.ended(),
            // The commands were carried out, or the exit was told.
            _ => w.winds_up(now),
        }
    }
}

/// The loop.
pub struct WorkerLoop {
    worker: Worker,
    phase: Phase,
}

impl View for WorkerLoop {
    type V = LoopModel;

    closed spec fn view(&self) -> LoopModel {
        LoopModel { worker: self.worker@, phase: self.phase }
    }
}

impl WorkerLoop {
    /// A loop that has not begun.
    pub fn new() -> (worker_loop: WorkerLoop)
        ensures
            worker_loop@ == LoopModel::fresh(),
    {
        WorkerLoop { worker: Worker::new(), phase: Phase::New }
    }

    /// The bytes to be written.
    pub fn inflight(&self) -> (bytes: &[u8])
        ensures
            bytes@ == self@.worker.inflight,
    {
        self.worker.inflight()
    }

    /// Whether the loop is over.
    pub fn is_over(&self) -> (over: bool)
        ensures
            over == (self@.phase is Ended || self@.phase is Stopped),
    {
        matches!(self.phase, Phase::Ended | Phase::Stopped)
    }

    /// Whether the event is one that the action under way can have.
    pub fn expects(&self, event: &LoopEvent) -> (expected: bool)
        ensures
            expected == self@.awaits(*event),
    {
        match self.phase {
            Phase::FreshRead { first: _ } => matches!(event, LoopEvent::ReadStarted(_)),
            Phase::SecondRead => matches!(event, LoopEvent::ReadStarted(_)),
            Phase::FreshEmit { first: _ } => matches!(event, LoopEvent::Emitted(_)),
            Phase::Emitting { more: _ } => matches!(event, LoopEvent::Emitted(_)),
            Phase::StartingWrite => matches!(event, LoopEvent::WriteStarted(_)),
            Phase::Waiting => matches!(event, LoopEvent::Woken(_)),
            Phase::TakingCommands => matches!(event, LoopEvent::Commands(_)),
            Phase::AskingChild => matches!(event, LoopEvent::Child(_)),
            Phase::EndingRead => matches!(event, LoopEvent::ReadEnded(_)),
            Phase::EndingWrite => matches!(event, LoopEvent::WriteEnded(_)),
            Phase::Ended => false,
            Phase::Stopped => false,
            _ => matches!(event, LoopEvent::Done),
        }
    }

    fn end(&mut self) -> (action: LoopAction)
        ensures
            (LoopStep { after: final(self)@, action }) == old(self)@.worker.ended(),
    {
        self.phase = Phase::Ended;
        LoopAction::End(self.worker.end())
    }

    fn wait(&mut self, now: u64) -> (action: LoopAction)
        ensures
            (LoopStep { after: final(self)@, action }) == old(self)@.worker.waits(now),
    {
        self.phase = Phase::Waiting;
        LoopAction::Wait {
            handles: self.worker.handle_count(),
            timeout: self.worker.wait_timeout(now),
        }
    }

    fn turn(&mut self, now: u64) -> (action: LoopAction)
        ensures
            (LoopStep { after: final(self)@, action }) == old(self)@.worker.turns(now),
    {
        if self.worker.is_done() {
            self.end()
        } else if self.worker.begin_write() {
            self.phase = Phase::StartingWrite;
            LoopAction::StartWrite
        } else {
            self.wait(now)
        }
    }

    fn wind_up(&mut self, now: u64) -> (action: LoopAction)
        ensures
            (LoopStep { after: final(self)@, action }) == old(self)@.worker.winds_up(now),
    {
        if self.worker.deadline_passed(now) {
            self.phase = Phase::Terminating;
            LoopAction::ForceTerminate
        } else if self.worker.wants_read() {
            self.phase = Phase::FreshRead { first: false };
            LoopAction::StartRead
        } else {
            self.turn(now)
        }
    }

    fn go(&mut self, phase: Phase, action: LoopAction) -> (next: LoopAction)
        ensures
            (LoopStep { after: final(self)@, action: next }) == old(self)@.goes(phase, action),
    {
        self.phase = phase;
        action
    }

    fn woken(&mut self, wait_result: u32, now: u64) -> (action: LoopAction)
        ensures
            (LoopStep { after: final(self)@, action }) == old(self)@.wakes(wait_result, now),
    {
        match wake_of(wait_result) {
            Wake::Commands => self.go(Phase::TakingCommands, LoopAction::TakeCommands),
            Wake::Child => self.go(Phase::AskingChild, LoopAction::AskChild),
            Wake::Read => self.go(Phase::EndingRead, LoopAction::AskReadEnd),
            Wake::Write => {
                if self.worker.wants_write_end() {
                    self.go(Phase::EndingWrite, LoopAction::AskWriteEnd)
                } else {
                    self.worker.write_completed(None, now);
                    self.wind_up(now)
                }
            },
            Wake::Timeout => self.wind_up(now),
            Wake::Failed => self.go(Phase::Failing, LoopAction::ReportWaitError),
        }
    }

    fn fresh_read(&mut self, first: bool, start: OverlappedStart, now: u64) -> (action: LoopAction)
        requires
            old(self)@.phase == (Phase::FreshRead { first }),
        ensures
            (LoopStep { after: final(self)@, action }) == old(self)@.steps(
                LoopEvent::ReadStarted(start),
                now,
            ),
    {
        match self.worker.read_queued(start, now) {
            Some(n) => self.go(Phase::FreshHold { first }, LoopAction::Hold(n)),
            None => self.turn(now),
        }
    }

    fn second_read(&mut self, start: OverlappedStart, now: u64) -> (action: LoopAction)
        requires
            old(self)@.phase is SecondRead,
        ensures
            (LoopStep { after: final(self)@, action }) == old(self)@.steps(
                LoopEvent::ReadStarted(start),
                now,
            ),
    {
        match self.worker.read_queued(start, now) {
            Some(n) => self.go(Phase::SecondHold, LoopAction::Hold(n)),
            None => {
                let wait: bool = !self.worker.is_closing();
                self.go(Phase::Emitting { more: false }, LoopAction::Emit { wait })
            },
        }
    }

    /// Takes what became of the last action, and the time, and gives the next
    /// action.
    pub fn step(&mut self, event: LoopEvent, now: u64) -> (action: LoopAction)
        requires
            old(self)@.awaits(event),
        ensures
            (LoopStep { after: final(self)@, action }) == old(self)@.steps(event, now),
    {
        match (self.phase, event) {
            (Phase::New, _) => self.go(Phase::FreshRead { first: true }, LoopAction::StartRead),
            (Phase::FreshRead { first }, LoopEvent::ReadStarted(start)) => self.fresh_read(
                first,
                start,
                now,
            ),
            (Phase::FreshHold { first }, _) => self.go(
                Phase::FreshEmit { first },
                LoopAction::Emit { wait: true },
            ),
            (Phase::FreshEmit { first }, LoopEvent::Emitted(sent)) => {
                if sent {
                    self.turn(now)
                } else if first {
                    self.go(Phase::Stopped, LoopAction::Stop)
                } else {
                    self.end()
                }
            },
            (Phase::StartingWrite, LoopEvent::WriteStarted(start)) => {
                self.worker.write_started(start, now);
                self.wait(now)
            },
            (Phase::Waiting, LoopEvent::Woken(wait_result)) => self.woken(wait_result, now),
            (Phase::TakingCommands, LoopEvent::Commands(commands)) => {
                let outcome = self.worker.handle_commands(commands, now);
                self.go(
                    Phase::Applying,
                    LoopAction::Apply {
                        start_shutdown: outcome.start_shutdown,
                        resize: outcome.resize,
                    },
                )
            },
            (Phase::AskingChild, LoopEvent::Child(event)) => {
                match self.worker.child_signaled(event) {
                    Some(code) => self.go(Phase::Telling, LoopAction::ReportExit(code)),
                    None => self.wind_up(now),
                }
            },
            (Phase::EndingRead, LoopEvent::ReadEnded(end)) => {
                match self.worker.read_completed(end, now) {
                    Some(n) => self.go(Phase::Holding, LoopAction::Hold(n)),
                    None => self.wind_up(now),
                }
            },
            (Phase::Holding, _) => {
                if self.worker.is_closing() {
                    self.go(Phase::Emitting { more: false }, LoopAction::Emit { wait: false })
                } else {
                    self.go(Phase::SecondRead, LoopAction::StartRead)
                }
            },
            (Phase::SecondRead, LoopEvent::ReadStarted(start)) => self.second_read(start, now),
            (Phase::SecondHold, _) => {
                let wait: bool = !self.worker.is_closing();
                self.go(Phase::Emitting { more: true }, LoopAction::Emit { wait })
            },
            (Phase::Emitting { more }, LoopEvent::Emitted(sent)) => {
                if !sent {
                    self.end()
                } else if more {
                    let wait: bool = !self.worker.is_closing();
                    self.go(Phase::Emitting { more: false }, LoopAction::Emit { wait })
                } else {
                    self.wind_up(now)
                }
            },
            (Phase::EndingWrite, LoopEvent::WriteEnded(end)) => {
                self.worker.write_completed(Some(end), now);
                self.wind_up(now)
            },
            (Phase::Terminating, _) => self.go(Phase::TellingGone, LoopAction::ReportExit(None)),
            (Phase::TellingGone, _) => self.end(),
            (Phase::Failing, _) => self.end(),
            _ => self.wind_up(now),
        }
    }
}

/// The loop after some events, from its beginning.
pub open spec fn after(events: Seq<(LoopEvent, u64)>) -> LoopModel
    decreases events.len(),
{
    if events.len() == 0 {
        LoopModel::fresh()
    } else {
        after(events.drop_last()).steps(events.last().0, events.last().1).after
    }
}

/// The events are those of a run: each is one that the action before it can
/// have.
pub open spec fn is_run(events: Seq<(LoopEvent, u64)>) -> bool
    decreases events.len(),
{
    events.len() == 0 || (is_run(events.drop_last()) && after(events.drop_last()).awaits(
        events.last().0,
    ))
}

/// Kinds of actions.
pub enum Kind {
    /// The child is told to be gone.
    Exit,
    /// Output is set aside.
    Hold,
    /// Output is sent.
    Emit,
}

/// The action is of the kind.
pub open spec fn is_of(action: LoopAction, kind: Kind) -> bool {
    match kind {
        Kind::Exit => match action {
            LoopAction::ReportExit(code) => true,
            LoopAction::End(end) => end.report_exit,
            _ => false,
        },
        Kind::Hold => action is Hold,
        Kind::Emit => action is Emit,
    }
}

/// How many actions of a kind the events led to.
pub open spec fn count(events: Seq<(LoopEvent, u64)>, kind: Kind) -> int
    decreases events.len(),
{
    if events.len() == 0 {
        0
    } else {
        let step = after(events.drop_last()).steps(events.last().0, events.last().1);
        count(events.drop_last(), kind) + if is_of(step.action, kind) {
            1int
        } else {
            0
        }
    }
}

/// How many outputs are set aside and not yet on their way.
pub open spec fn owed(phase: Phase) -> int {
    match phase {
        Phase::FreshHold { first } => 1,
        Phase::Holding => 1,
        Phase::SecondRead => 1,
        Phase::SecondHold => 2,
        Phase::Emitting { more } => if more {
            1
        } else {
            0
        },
        _ => 0,
    }
}

/// Whether the exit has been told where the loop stands.
spec fn has_told(m: LoopModel) -> bool {
    m.phase is Ended || (m.worker.child_exited && !(m.phase is Terminating))
}

/// What holds of the loop at each moment.
spec fn sound(m: LoopModel) -> bool {
    &&& m.worker.child_exited ==> match m.phase {
        Phase::Telling | Phase::Terminating | Phase::TellingGone | Phase::Ended => true,
        Phase::FreshRead { first } => !first,
        Phase::FreshHold { first } => !first,
        Phase::FreshEmit { first } => !first,
        _ => false,
    }
    &&& match m.phase {
        Phase::Terminating | Phase::TellingGone | Phase::Telling => m.worker.child_exited,
        Phase::New | Phase::Holding | Phase::SecondRead => !m.worker.read_pending,
        Phase::FreshRead { first } => !m.worker.read_pending,
        Phase::StartingWrite => !m.worker.write_pending && m.worker.inflight.len() > 0,
        _ => true,
    }
}

/// A step keeps the loop sound, tells the exit if it was not told and has to be
/// told, and owes the outputs that are set aside and not sent.
spec fn good_step(m: LoopModel, step: LoopStep) -> bool {
    &&& sound(step.after)
    &&& has_told(m) ==> has_told(step.after)
    &&& is_of(step.action, Kind::Exit) == (!has_told(m) && has_told(step.after))
    &&& step.after.phase is Ended || {
        owed(step.after.phase) == owed(m.phase) + if is_of(step.action, Kind::Hold) {
            1int
        } else {
            0
        } - if is_of(step.action, Kind::Emit) {
            1int
        } else {
            0
        }
    }
}

proof fn lemma_turns(m: LoopModel, w: WorkerModel, now: u64)
    requires
        owed(m.phase) == 0,
        has_told(m) == w.child_exited,
    ensures
        good_step(m, w.turns(now)),
{
}

proof fn lemma_winds_up(m: LoopModel, w: WorkerModel, now: u64)
    requires
        owed(m.phase) == 0,
        has_told(m) == w.child_exited,
    ensures
        good_step(m, w.winds_up(now)),
{
    lemma_turns(m, w, now);
}

proof fn lemma_commanded_keeps(w: WorkerModel, commands: Seq<PtyCommand>, now: u64, n: int)
    ensures
        w.commanded(commands, now, n).child_exited == w.child_exited,
    decreases n,
{
    if n > 0 {
        lemma_commanded_keeps(w, commands, now, n - 1);
    }
}

proof fn lemma_step(m: LoopModel, event: LoopEvent, now: u64)
    requires
        sound(m),
        m.awaits(event),
    ensures
        good_step(m, m.steps(event, now)),
{
    let w = m.worker;
    match (m.phase, event) {
        (Phase::FreshRead { first }, LoopEvent::ReadStarted(start)) => {
            lemma_turns(m, w.read_begun(start, now), now);
        },
        (Phase::FreshEmit { first }, LoopEvent::Emitted(sent)) => {
            lemma_turns(m, w, now);
        },
        (Phase::Waiting, LoopEvent::Woken(wait_result)) => {
            lemma_winds_up(m, w, now);
            lemma_winds_up(m, w.write_over(None, now), now);
        },
        (Phase::TakingCommands, LoopEvent::Commands(commands)) => {
            lemma_commanded_keeps(w, commands@, now, commands@.len() as int);
        },
        (Phase::EndingRead, LoopEvent::ReadEnded(end)) => {
            lemma_winds_up(m, w.read_over(end, now), now);
        },
        (Phase::EndingWrite, LoopEvent::WriteEnded(end)) => {
            lemma_winds_up(m, w.write_over(Some(end), now), now);
        },
        (Phase::AskingChild, LoopEvent::Child(event)) => {
            lemma_winds_up(m, w, now);
        },
        (Phase::Emitting { more }, LoopEvent::Emitted(sent)) => {
            if sent && !more {
                lemma_winds_up(m, w, now);
            }
        },
        (Phase::Applying, _) => {
            lemma_winds_up(m, w, now);
        },
        (Phase::Telling, _) => {
            lemma_winds_up(m, w, now);
        },
        _ => {},
    }
}

proof fn lemma_run(events: Seq<(LoopEvent, u64)>)
    requires
        is_run(events),
    ensures
        sound(after(events)),
        count(events, Kind::Exit) == if has_told(after(events)) {
            1int
        } else {
            0
        },
        after(events).phase is Ended || count(events, Kind::Hold) == count(events, Kind::Emit)
            + owed(after(events).phase),
    decreases events.len(),
{
    if events.len() > 0 {
        let before = events.drop_last();
        lemma_run(before);
        lemma_step(after(before), events.last().0, events.last().1);
        assert(!(after(before).phase is Ended));
    }
}

/// That the child is gone is told at most once, and has been told when the loop
/// has ended.
pub proof fn law_exit_is_told_once(events: Seq<(LoopEvent, u64)>)
    requires
        is_run(events),
    ensures
        count(events, Kind::Exit) <= 1,
        after(events).phase is Ended ==> count(events, Kind::Exit) == 1,
{
    lemma_run(events);
}

/// Whatever was read is on its way before the loop waits again: at each moment
/// before its end the outputs set aside are those sent and those owed, and
/// while it waits none is owed.
pub proof fn law_output_is_sent(events: Seq<(LoopEvent, u64)>)
    requires
        is_run(events),
        !(after(events).phase is Ended),
    ensures
        count(events, Kind::Hold) == count(events, Kind::Emit) + owed(after(events).phase),
        after(events).phase is Waiting ==> count(events, Kind::Hold) == count(
            events,
            Kind::Emit,
        ),
{
    lemma_run(events);
}

/// A read is started only while none is under way, and a write only while none
/// is under way and there is something to write.
pub proof fn law_one_at_a_time(events: Seq<(LoopEvent, u64)>)
    requires
        is_run(events),
    ensures
        match after(events).phase {
            Phase::FreshRead { first } => !after(events).worker.read_pending,
            Phase::SecondRead => !after(events).worker.read_pending,
            Phase::StartingWrite => !after(events).worker.write_pending
                && after(events).worker.inflight.len() > 0,
            _ => true,
        },
{
    lemma_run(events);
}

} // verus!
