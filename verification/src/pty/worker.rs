//! The worker that serves a pseudo-console.
//!
//! It waits for commands, for the child to exit, and for reads and writes to
//! complete. What is here decides what it does next; the waiting, the reading
//! and the writing are done by whoever runs it. Times are in nanoseconds.
use crate::pty::types::{ChildEvent, PtyCommand, WindowSize};
use vstd::prelude::*;

verus! {

/// The most that is written at once.
pub const MAX_WRITE_CHUNK: usize = 0x1_0000;

/// How long the child has to exit before it is ended.
pub const GRACEFUL_SHUTDOWN_TIMEOUT: u64 = 1_000_000_000;

/// Waiting without end.
pub const INFINITE: u32 = 0xffff_ffff;

/// The first of what is waited for.
pub const WAIT_OBJECT_0: u32 = 0;

/// The time is up.
pub const WAIT_TIMEOUT: u32 = 258;

/// How a read or a write began.
#[derive(Clone, Copy, Debug, PartialEq, Eq, Structural)]
pub enum OverlappedStart {
    /// It completes later.
    Pending,
    /// It completed with so many bytes.
    Completed(usize),
    /// It failed.
    Failed,
}

/// How a read ended.
#[derive(Clone, Copy, Debug, PartialEq, Eq, Structural)]
pub enum ReadEnd {
    /// So many bytes were read.
    Read(u32),
    /// It is not over, which cannot be.
    Incomplete,
    /// It failed.
    Failed,
}

/// How a write ended.
#[derive(Clone, Copy, Debug, PartialEq, Eq, Structural)]
pub enum WriteEnd {
    /// So many bytes were written.
    Written(u32),
    /// It is not over.
    Incomplete,
    /// It failed.
    Failed,
}

/// What waiting gave.
#[derive(Clone, Copy, Debug, PartialEq, Eq, Structural)]
pub enum Wake {
    Commands,
    Child,
    Read,
    Write,
    Timeout,
    Failed,
}

/// What the result of waiting stands for.
pub fn wake_of(wait_result: u32) -> (wake: Wake)
    ensures
        wake == if wait_result == WAIT_OBJECT_0 {
            Wake::Commands
        } else if wait_result == WAIT_OBJECT_0 + 1 {
            Wake::Child
        } else if wait_result == WAIT_OBJECT_0 + 2 {
            Wake::Read
        } else if wait_result == WAIT_OBJECT_0 + 3 {
            Wake::Write
        } else if wait_result == WAIT_TIMEOUT {
            Wake::Timeout
        } else {
            Wake::Failed
        },
{
    if wait_result == WAIT_OBJECT_0 {
        Wake::Commands
    } else if wait_result == WAIT_OBJECT_0 + 1 {
        Wake::Child
    } else if wait_result == WAIT_OBJECT_0 + 2 {
        Wake::Read
    } else if wait_result == WAIT_OBJECT_0 + 3 {
        Wake::Write
    } else if wait_result == WAIT_TIMEOUT {
        Wake::Timeout
    } else {
        Wake::Failed
    }
}

/// What commands ask for at once.
#[derive(Clone, Copy, Debug)]
pub struct CommandOutcome {
    /// The last size asked for.
    pub resize: Option<WindowSize>,
    /// Whether to begin the shutdown.
    pub start_shutdown: bool,
}

/// What is left to do when the worker ends.
#[derive(Clone, Copy, Debug, PartialEq, Eq, Structural)]
pub struct WorkerEnd {
    pub cancel_read: bool,
    pub cancel_write: bool,
    /// Whether to tell that the child is gone.
    pub report_exit: bool,
}

/// The state of the worker.
#[verifier::ext_equal]
pub struct WorkerModel {
    /// Bytes that wait to be written.
    pub queued: Seq<u8>,
    /// Bytes that are being written.
    pub inflight: Seq<u8>,
    pub read_pending: bool,
    pub write_pending: bool,
    pub closing: bool,
    pub child_exited: bool,
    pub deadline: Option<u64>,
}

/// The time a second later, or the last there is.
pub open spec fn deadline_after(now: u64) -> u64 {
    if now + GRACEFUL_SHUTDOWN_TIMEOUT > u64::MAX {
        u64::MAX
    } else {
        (now + GRACEFUL_SHUTDOWN_TIMEOUT) as u64
    }
}

impl WorkerModel {
    /// All bytes that are still to be written, in order.
    pub open spec fn outgoing(self) -> Seq<u8> {
        self.inflight + self.queued
    }

    /// Shutdown has begun; its deadline stands from the first time on.
    pub open spec fn marked_closing(self, now: u64) -> WorkerModel {
        WorkerModel {
            closing: true,
            deadline: match self.deadline {
                Some(deadline) => Some(deadline),
                None => Some(deadline_after(now)),
            },
            ..self
        }
    }

    /// Bytes are being written: as many as go at once, unless there still are
    /// some.
    pub open spec fn write_begun(self) -> WorkerModel {
        if self.inflight.len() > 0 {
            self
        } else if self.queued.len() <= MAX_WRITE_CHUNK {
            WorkerModel { inflight: self.queued, queued: Seq::empty(), ..self }
        } else {
            WorkerModel {
                inflight: self.queued.take(MAX_WRITE_CHUNK as int),
                queued: self.queued.skip(MAX_WRITE_CHUNK as int),
                ..self
            }
        }
    }

    /// So many bytes were written.
    pub open spec fn written(self, n: int) -> WorkerModel {
        WorkerModel {
            inflight: if n >= self.inflight.len() {
                Seq::empty()
            } else {
                self.inflight.skip(n)
            },
            ..self
        }
    }

    /// The first `n` commands were carried out.
    pub open spec fn commanded(self, commands: Seq<PtyCommand>, now: u64, n: int) -> WorkerModel
        decreases n,
    {
        if n <= 0 {
            self
        } else {
            let before = self.commanded(commands, now, n - 1);
            match commands[n - 1] {
                PtyCommand::Write(data) => WorkerModel { queued: before.queued + data@, ..before },
                PtyCommand::Resize(size) => before,
                PtyCommand::Close => before.marked_closing(now),
            }
        }
    }
}

/// The last size among the first `n` commands.
pub open spec fn last_resize(commands: Seq<PtyCommand>, n: int) -> Option<WindowSize>
    decreases n,
{
    if n <= 0 {
        None
    } else {
        match commands[n - 1] {
            PtyCommand::Resize(size) => Some(size),
            _ => last_resize(commands, n - 1),
        }
    }
}

/// Whether the first `n` commands hold one to close.
pub open spec fn has_close(commands: Seq<PtyCommand>, n: int) -> bool {
    exists|i: int| 0 <= i < n && (#[trigger] commands[i]) is Close
}

/// The worker.
pub struct Worker {
    write_buf: Vec<u8>,
    write_inflight: Vec<u8>,
    read_pending: bool,
    write_pending: bool,
    closing: bool,
    child_exited: bool,
    shutdown_deadline: Option<u64>,
}

impl View for Worker {
    type V = WorkerModel;

    closed spec fn view(&self) -> WorkerModel {
        WorkerModel {
            queued: self.write_buf@,
            inflight: self.write_inflight@,
            read_pending: self.read_pending,
            write_pending: self.write_pending,
            closing: self.closing,
            child_exited: self.child_exited,
            deadline: self.shutdown_deadline,
        }
    }
}

impl Worker {
    /// A worker with nothing to do.
    pub fn new() -> (worker: Worker)
        ensures
            worker@ == (WorkerModel {
                queued: Seq::empty(),
                inflight: Seq::empty(),
                read_pending: false,
                write_pending: false,
                closing: false,
                child_exited: false,
                deadline: None,
            }),
    {
        let worker = Worker {
            write_buf: Vec::new(),
            write_inflight: Vec::new(),
            read_pending: false,
            write_pending: false,
            closing: false,
            child_exited: false,
            shutdown_deadline: None,
        };
        assert(worker@.queued =~= Seq::<u8>::empty());
        assert(worker@.inflight =~= Seq::<u8>::empty());
        worker
    }

    /// Whether the child has exited, which ends the worker.
    pub fn is_done(&self) -> (done: bool)
        ensures
            done == self@.child_exited,
    {
        self.child_exited
    }

    /// Whether shutdown has begun. Output is then sent only if there is room
    /// for it.
    pub fn is_closing(&self) -> (closing: bool)
        ensures
            closing == self@.closing,
    {
        self.closing
    }

    /// Begins the shutdown, if it has not begun.
    pub fn mark_closing(&mut self, now: u64)
        ensures
            final(self)@ == old(self)@.marked_closing(now),
    {
        self.closing = true;
        if self.shutdown_deadline.is_none() {
            let deadline: u64 = now.saturating_add(GRACEFUL_SHUTDOWN_TIMEOUT);
            self.shutdown_deadline = Some(deadline);
        }
    }

    /// Whether a write is to be started, of the bytes in
    /// [`Worker::inflight`].
    pub fn begin_write(&mut self) -> (starts: bool)
        ensures
            starts == (!old(self)@.write_pending && old(self)@.outgoing().len() > 0),
            final(self)@ == if starts {
                old(self)@.write_begun()
            } else {
                old(self)@
            },
    {
        if self.write_pending || (self.write_inflight.len() == 0 && self.write_buf.len() == 0) {
            return false;
        }
        if self.write_inflight.len() == 0 {
            let ghost queued = self.write_buf@;
            let len: usize = if self.write_buf.len() < MAX_WRITE_CHUNK {
                self.write_buf.len()
            } else {
                MAX_WRITE_CHUNK
            };
            let rest = self.write_buf.split_off(len);
            let mut chunk = rest;
            std::mem::swap(&mut self.write_buf, &mut chunk);
            self.write_inflight = chunk;
            assert(self@ =~= old(self)@.write_begun()) by {
                assert(queued.take(len as int) =~= self.write_inflight@);
                assert(queued.skip(len as int) =~= self.write_buf@);
                if queued.len() <= MAX_WRITE_CHUNK {
                    assert(queued.take(len as int) =~= queued);
                    assert(queued.skip(len as int) =~= Seq::<u8>::empty());
                }
            }
        }
        true
    }

    /// The bytes that are being written.
    pub fn inflight(&self) -> (bytes: &[u8])
        ensures
            bytes@ == self@.inflight,
    {
        self.write_inflight.as_slice()
    }

    fn drop_written(&mut self, n: usize)
        ensures
            final(self)@ == old(self)@.written(n as int),
    {
        if n >= self.write_inflight.len() {
            self.write_inflight.clear();
            assert(self.write_inflight@ =~= Seq::<u8>::empty());
        } else {
            let rest = self.write_inflight.split_off(n);
            self.write_inflight = rest;
            assert(self.write_inflight@ =~= old(self)@.inflight.skip(n as int));
        }
    }

    /// A write was started.
    pub fn write_started(&mut self, start: OverlappedStart, now: u64)
        ensures
            final(self)@ == match start {
                OverlappedStart::Pending => WorkerModel { write_pending: true, ..old(self)@ },
                OverlappedStart::Completed(n) => WorkerModel {
                    write_pending: false,
                    ..old(self)@.written(n as int)
                },
                OverlappedStart::Failed => WorkerModel {
                    write_pending: false,
                    inflight: Seq::empty(),
                    ..old(self)@.marked_closing(now)
                },
            },
    {
        match start {
            OverlappedStart::Pending => {
                self.write_pending = true;
            },
            OverlappedStart::Completed(n) => {
                self.write_pending = false;
                self.drop_written(n);
            },
            OverlappedStart::Failed => {
                self.mark_closing(now);
                self.write_pending = false;
                self.write_inflight.clear();
                assert(self.write_inflight@ =~= Seq::<u8>::empty());
            },
        }
    }

    /// How many things to wait for: a write counts only while it is under way.
    pub fn handle_count(&self) -> (count: u32)
        ensures
            count == if self@.write_pending {
                4u32
            } else {
                3u32
            },
    {
        if self.write_pending {
            4
        } else {
            3
        }
    }

    /// How long to wait, in milliseconds: up to the deadline of the shutdown,
    /// else without end.
    pub fn wait_timeout(&self, now: u64) -> (millis: u32)
        ensures
            millis == match self@.deadline {
                None => INFINITE as int,
                Some(deadline) => {
                    let left = if deadline < now {
                        0
                    } else {
                        (deadline - now) / 1_000_000
                    };
                    if left > u32::MAX {
                        u32::MAX as int
                    } else {
                        left
                    }
                },
            },
    {
        match self.shutdown_deadline {
            None => INFINITE,
            Some(deadline) => {
                let left: u64 = if deadline < now {
                    0
                } else {
                    (deadline - now) / 1_000_000
                };
                if left > 0xffff_ffff {
                    0xffff_ffff
                } else {
                    left as u32
                }
            },
        }
    }

    /// Carries commands out. Bytes queue up, only the last size counts, and the
    /// first close begins the shutdown.
    pub fn handle_commands(&mut self, commands: Vec<PtyCommand>, now: u64) -> (outcome:
        CommandOutcome)
        ensures
            final(self)@ == old(self)@.commanded(commands@, now, commands@.len() as int),
            outcome.resize == last_resize(commands@, commands@.len() as int),
            outcome.start_shutdown == (!old(self)@.closing && has_close(
                commands@,
                commands@.len() as int,
            )),
    {
        let ghost before = self@;
        let mut resize: Option<WindowSize> = None;
        let mut start_shutdown: bool = false;
        let mut i: usize = 0;
        while i < commands.len()
            invariant
                i <= commands@.len(),
                self@ == before.commanded(commands@, now, i as int),
                resize == last_resize(commands@, i as int),
                start_shutdown == (!before.closing && has_close(commands@, i as int)),
                self@.closing == (before.closing || has_close(commands@, i as int)),
            decreases commands@.len() - i,
        {
            match &commands[i] {
                PtyCommand::Write(data) => {
                    let ghost queued = self.write_buf@;
                    push_bytes(&mut self.write_buf, data);
                    assert(self.write_buf@ =~= queued + data@);
                },
                PtyCommand::Resize(size) => {
                    resize = Some(*size);
                },
                PtyCommand::Close => {
                    if !self.closing {
                        start_shutdown = true;
                    }
                    self.mark_closing(now);
                    assert(commands@[i as int] is Close);
                },
            }
            proof {
                if has_close(commands@, i as int) {
                    let k = choose|k: int| 0 <= k < i && (#[trigger] commands@[k]) is Close;
                    assert(commands@[k] is Close && k < i + 1);
                }
            }
            i += 1;
        }
        CommandOutcome { resize, start_shutdown }
    }

    /// The child was signaled. The result is what to tell of it, if it has
    /// exited.
    pub fn child_signaled(&mut self, event: Option<ChildEvent>) -> (exit: Option<Option<u32>>)
        ensures
            final(self)@ == (WorkerModel {
                child_exited: event is Some || old(self)@.child_exited,
                ..old(self)@
            }),
            exit == match event {
                Some(ChildEvent::Exited(code)) => Some(code),
                None => None,
            },
    {
        match event {
            Some(ChildEvent::Exited(code)) => {
                self.child_exited = true;
                Some(code)
            },
            None => None,
        }
    }

    /// A read has ended. The result is how many bytes it gave; nothing, if it
    /// gave none, which begins the shutdown.
    pub fn read_completed(&mut self, end: ReadEnd, now: u64) -> (bytes: Option<usize>)
        ensures
            bytes == match end {
                ReadEnd::Read(n) => if n == 0 {
                    None
                } else {
                    Some(n as usize)
                },
                _ => None,
            },
            final(self)@ == (WorkerModel {
                read_pending: false,
                ..if bytes is None {
                    old(self)@.marked_closing(now)
                } else {
                    old(self)@
                }
            }),
    {
        self.read_pending = false;
        match end {
            ReadEnd::Read(n) => {
                if n == 0 {
                    self.mark_closing(now);
                    None
                } else {
                    Some(n as usize)
                }
            },
            ReadEnd::Incomplete => {
                self.mark_closing(now);
                None
            },
            ReadEnd::Failed => {
                self.mark_closing(now);
                None
            },
        }
    }

    /// Whether to start another read.
    pub fn wants_read(&self) -> (wants: bool)
        ensures
            wants == (!self@.closing && !self@.read_pending),
    {
        !self.closing && !self.read_pending
    }

    /// A read was started. The result is how many bytes it gave at once. A read
    /// of nothing, and one that failed, begin the shutdown.
    pub fn read_queued(&mut self, start: OverlappedStart, now: u64) -> (bytes: Option<usize>)
        ensures
            bytes == match start {
                OverlappedStart::Completed(n) => if n == 0 {
                    None
                } else {
                    Some(n)
                },
                _ => None,
            },
            final(self)@ == match start {
                OverlappedStart::Pending => WorkerModel { read_pending: true, ..old(self)@ },
                _ => WorkerModel {
                    read_pending: false,
                    ..if bytes is None {
                        old(self)@.marked_closing(now)
                    } else {
                        old(self)@
                    }
                },
            },
    {
        match start {
            OverlappedStart::Pending => {
                self.read_pending = true;
                None
            },
            OverlappedStart::Completed(n) => {
                self.read_pending = false;
                if n == 0 {
                    self.mark_closing(now);
                    None
                } else {
                    Some(n)
                }
            },
            OverlappedStart::Failed => {
                self.read_pending = false;
                self.mark_closing(now);
                None
            },
        }
    }

    /// Whether the end of a write is to be asked for.
    pub fn wants_write_end(&self) -> (wants: bool)
        ensures
            wants == (self@.inflight.len() > 0),
    {
        self.write_inflight.len() > 0
    }

    /// A write was signaled; `end` is what was asked for, if anything was being
    /// written. Bytes that were not written stay for the next write.
    pub fn write_completed(&mut self, end: Option<WriteEnd>, now: u64)
        ensures
            final(self)@ == (WorkerModel {
                write_pending: false,
                ..match end {
                    Some(WriteEnd::Written(n)) => old(self)@.written(n as int),
                    Some(WriteEnd::Failed) => WorkerModel {
                        inflight: Seq::empty(),
                        ..old(self)@.marked_closing(now)
                    },
                    _ => old(self)@,
                }
            }),
    {
        self.write_pending = false;
        match end {
            Some(WriteEnd::Written(n)) => {
                self.drop_written(n as usize);
            },
            Some(WriteEnd::Failed) => {
                self.mark_closing(now);
                self.write_inflight.clear();
                assert(self.write_inflight@ =~= Seq::<u8>::empty());
            },
            Some(WriteEnd::Incomplete) => {},
            None => {},
        }
    }

    /// Whether the child has to be ended: the shutdown is past its deadline.
    /// The child then counts as gone.
    pub fn deadline_passed(&mut self, now: u64) -> (passed: bool)
        ensures
            passed == (old(self)@.closing && !old(self)@.child_exited && (
            old(self)@.deadline matches Some(deadline) && now >= deadline)),
            final(self)@ == (WorkerModel {
                child_exited: passed || old(self)@.child_exited,
                ..old(self)@
            }),
    {
        if !self.closing || self.child_exited {
            return false;
        }
        match self.shutdown_deadline {
            Some(deadline) => {
                if now >= deadline {
                    self.child_exited = true;
                    true
                } else {
                    false
                }
            },
            None => false,
        }
    }

    /// What is left to do at the end. The exit is told here only if it was not
    /// told before.
    pub fn end(&self) -> (end: WorkerEnd)
        ensures
            end.cancel_read == self@.read_pending,
            end.cancel_write == self@.write_pending,
            end.report_exit == !self@.child_exited,
    {
        WorkerEnd {
            cancel_read: self.read_pending,
            cancel_write: self.write_pending,
            report_exit: !self.child_exited,
        }
    }
}

fn push_bytes(to: &mut Vec<u8>, from: &Vec<u8>)
    ensures
        final(to)@ == old(to)@ + from@,
{
    let mut i: usize = 0;
    assert(to@ =~= old(to)@ + from@.take(0));
    while i < from.len()
        invariant
            i <= from@.len(),
            to@ == old(to)@ + from@.take(i as int),
        decreases from@.len() - i,
    {
        to.push(from[i]);
        i += 1;
        assert(to@ =~= old(to)@ + from@.take(i as int));
    }
    assert(from@.take(i as int) =~= from@);
}

/// Whether an error is told: a pipe that broke is no news.
pub fn reports_error(broken_pipe: bool) -> (reports: bool)
    ensures
        reports == !broken_pipe,
{
    !broken_pipe
}

/// Starting a write moves no byte out of turn, and takes no more than goes at
/// once.
pub proof fn law_write_keeps_order(w: WorkerModel)
    ensures
        w.write_begun().outgoing() == w.outgoing(),
        w.inflight.len() == 0 ==> w.write_begun().inflight.len() <= MAX_WRITE_CHUNK,
        w.outgoing().len() > 0 ==> w.write_begun().inflight.len() > 0,
{
    assert(w.write_begun().outgoing() =~= w.outgoing());
}

/// Bytes that were written leave from the front, and no others do.
pub proof fn law_written_bytes_leave(w: WorkerModel, n: int)
    requires
        0 <= n <= w.inflight.len(),
    ensures
        w.outgoing() == w.inflight.take(n) + w.written(n).outgoing(),
{
    assert(w.outgoing() =~= w.inflight.take(n) + w.written(n).outgoing());
}

/// The bytes of the first `n` commands, in order.
pub open spec fn command_bytes(commands: Seq<PtyCommand>, n: int) -> Seq<u8>
    decreases n,
{
    if n <= 0 {
        Seq::empty()
    } else {
        match commands[n - 1] {
            PtyCommand::Write(data) => command_bytes(commands, n - 1) + data@,
            _ => command_bytes(commands, n - 1),
        }
    }
}

/// Commands add their bytes at the end, in order, whatever else they ask for.
pub proof fn law_commands_queue_bytes(w: WorkerModel, commands: Seq<PtyCommand>, now: u64, n: int)
    requires
        0 <= n <= commands.len(),
    ensures
        w.commanded(commands, now, n).outgoing() == w.outgoing() + command_bytes(commands, n),
    decreases n,
{
    if n > 0 {
        law_commands_queue_bytes(w, commands, now, n - 1);
        let before = w.commanded(commands, now, n - 1);
        let after = w.commanded(commands, now, n);
        match commands[n - 1] {
            PtyCommand::Write(data) => {
                assert(after.outgoing() =~= before.outgoing() + data@);
                assert(after.outgoing() =~= w.outgoing() + (command_bytes(commands, n - 1)
                    + data@));
            },
            _ => {
                assert(after.outgoing() =~= before.outgoing());
            },
        }
    } else {
        assert(w.outgoing() =~= w.outgoing() + command_bytes(commands, n));
    }
}

/// A shutdown that has begun goes on, and its deadline does not move.
pub proof fn law_deadline_stands(w: WorkerModel, now: u64, later: u64)
    ensures
        w.marked_closing(now).closing,
        w.marked_closing(now).marked_closing(later) == w.marked_closing(now),
{
}

} // verus!
